use agni::reply::{
    connection_desc_handler, connection_handler, content_desc_handler, error_handler, home_handler,
    root_handler, user_handler, Body, Reply,
};
use agni::types::AppUuid;

fn text_of(r: Reply) -> String {
    match r.body {
        Body::Text(t) => t,
        _ => panic!("a reply with a text"),
    }
}

#[test]
fn device_description_names_the_server() {
    let uuid = AppUuid::new([
        0x12, 0x3e, 0x45, 0x67, 0xe8, 0x9b, 0x12, 0xd3, 0xa4, 0x56, 0x42, 0x66, 0x14, 0x17, 0x40, 0,
    ]);
    assert_eq!(uuid.text(), "123e4567-e89b-12d3-a456-426614174000");
    let r = root_handler("<n>{name}</n><u>uuid:{uuid}</u>{name}", &uuid);
    assert_eq!(r.status, 200);
    assert_eq!(r.headers, vec![("Content-Type".to_string(), "text/xml".to_string())]);
    assert_eq!(
        text_of(r),
        "<n>Actix-Rednithin-Dev</n><u>uuid:123e4567-e89b-12d3-a456-426614174000</u>Actix-Rednithin-Dev"
    );
}

#[test]
fn service_descriptions_are_sent_as_they_are() {
    let r = content_desc_handler("<scpd/>");
    assert_eq!(r.headers, vec![("Content-Type".to_string(), "text/xml".to_string())]);
    assert_eq!(text_of(r), "<scpd/>");
    assert_eq!(text_of(connection_desc_handler("{name}")), "{name}");
}

#[test]
fn connection_manager_has_one_answer() {
    let t = text_of(connection_handler());
    assert!(t.starts_with("<?xml version=\"1.0\" encoding=\"UTF-8\"?>\n<s:Envelope "));
    assert!(t.contains("\n         <Source></Source>\n         <Sink></Sink>\n"));
    assert!(t.ends_with("</s:Envelope>\n"));
}

#[test]
fn plain_pages_are_texts() {
    assert_eq!(text_of(home_handler()), "Home page");
    assert_eq!(text_of(user_handler("nithin")), "Hello nithin");
    let r = error_handler("broken");
    assert_eq!(r.status, 500);
    assert_eq!(text_of(r), "Something went wrong: broken");
}

#[test]
fn bare_reply_has_nothing() {
    let r = Reply::bare(304);
    assert_eq!(r.status, 304);
    assert!(r.headers.is_empty());
    assert!(matches!(r.body, Body::Empty));
}
