use agni::directory::{read_directory, DirEntry, EntryKind};
use agni::query::{path_of_fields, requested_path, PathError};
use agni::types::ListItem;

fn field(name: &str, value: &str) -> (String, String) {
    (name.to_string(), value.to_string())
}

#[test]
fn path_is_read_from_the_query() {
    assert_eq!(requested_path(Some("filename=/mnt/a%20b.mkv")), Ok("/mnt/a b.mkv".to_string()));
    assert_eq!(requested_path(Some("x=1&filename=%2Fa+b")), Ok("/a b".to_string()));
    assert_eq!(requested_path(Some("filename=")), Ok("".to_string()));
}

#[test]
fn last_field_counts() {
    assert_eq!(requested_path(Some("filename=a&filename=b")), Ok("b".to_string()));
}

#[test]
fn path_is_decoded_twice() {
    assert_eq!(requested_path(Some("filename=%2541")), Ok("A".to_string()));
}

#[test]
fn missing_path_is_told() {
    assert_eq!(requested_path(None), Err(PathError::Missing));
    assert_eq!(requested_path(Some("")), Err(PathError::Missing));
    assert_eq!(requested_path(Some("file=a")), Err(PathError::Missing));
}

#[test]
fn bytes_that_are_no_text_are_told() {
    assert_eq!(path_of_fields(&vec![field("filename", "%FF")]), Err(PathError::NotText));
    assert_eq!(requested_path(Some("filename=%25FF")), Err(PathError::NotText));
}

#[test]
fn fields_are_read_from_the_back() {
    let fields = vec![field("filename", "a"), field("filename", "b%2"), field("other", "c")];
    assert_eq!(path_of_fields(&fields), Ok("b%2".to_string()));
    assert_eq!(path_of_fields(&vec![]), Err(PathError::Missing));
}

#[test]
fn link_leads_back_to_its_file() {
    for name in ["a b [c] \"d\".mkv", "é<ö>`.mp4", "plain.mkv", "a=b?c.mkv", "100% real.mkv", "50%.mp4"] {
        let path = format!("/mnt/Documents/{}", name);
        let entries =
            vec![DirEntry { kind: EntryKind::File, file_name: name.to_string(), path: path.clone() }];
        let r = read_directory("10.0.0.2:3030", &entries, 1, 2);
        let link = match &r.list_items[0].list_item {
            ListItem::Item(x) => x.res.content.clone(),
            ListItem::Container(_) => panic!("a video is no folder"),
        };
        let query = link.split_once('?').unwrap().1;
        assert_eq!(requested_path(Some(query)), Ok(path));
    }
}

#[test]
fn link_of_a_plus_sign_leads_elsewhere() {
    assert_eq!(requested_path(Some("filename=/a+b.mkv")), Ok("/a b.mkv".to_string()));
}

#[test]
fn fields_are_cut_at_ampersands() {
    assert_eq!(requested_path(Some("&&filename=a&&b&")), Ok("a".to_string()));
    assert_eq!(requested_path(Some("filename=a=b")), Ok("a=b".to_string()));
    assert_eq!(requested_path(Some("filename")), Ok("".to_string()));
    assert_eq!(requested_path(Some("file%6Eame=x")), Ok("x".to_string()));
    assert_eq!(requested_path(Some("filename=%FF")), Ok("\u{fffd}".to_string()));
    assert_eq!(requested_path(Some("=x")), Err(PathError::Missing));
}
