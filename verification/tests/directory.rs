use agni::directory::{link_path, read_directory, sort_items, DirEntry, EntryKind};
use agni::types::{Container, ListItem, ListItemWrapper};

fn entry(kind: EntryKind, name: &str) -> DirEntry {
    DirEntry { kind, file_name: name.to_string(), path: format!("/mnt/Documents/{}", name) }
}

fn titles(items: &Vec<ListItemWrapper>) -> Vec<String> {
    items
        .iter()
        .map(|i| match &i.list_item {
            ListItem::Container(c) => c.title.clone(),
            ListItem::Item(x) => x.title.clone(),
        })
        .collect()
}

fn folder(id: u64, title: &str) -> ListItemWrapper {
    ListItemWrapper {
        list_item: ListItem::Container(Container {
            id,
            parent_id: 0,
            title: title.to_string(),
            class: "object.container.storageFolder".to_string(),
        }),
        id,
        dir: Some(format!("/{}", title)),
    }
}

#[test]
fn directory_is_listed_in_natural_order() {
    let entries = vec![
        entry(EntryKind::File, "Episode 10.mkv"),
        entry(EntryKind::File, "notes.txt"),
        entry(EntryKind::Directory, "Zoo"),
        entry(EntryKind::File, "episode 9.mp4"),
        entry(EntryKind::Unknown, "odd.mp4"),
        entry(EntryKind::Directory, "Apes"),
    ];
    let r = read_directory("10.0.0.2:3030", &entries, 7, 100);
    assert_eq!(r.id_counter, 106);
    assert_eq!(titles(&r.list_items), vec!["Apes", "Zoo", "episode 9.mp4", "Episode 10.mkv"]);
    let ids: Vec<u64> = r.list_items.iter().map(|i| i.id).collect();
    assert_eq!(ids, vec![105, 102, 103, 100]);
}

#[test]
fn folder_becomes_a_container() {
    let r = read_directory("host", &vec![entry(EntryKind::Directory, "Films")], 7, 3);
    let item = &r.list_items[0];
    assert_eq!(item.dir, Some("/mnt/Documents/Films".to_string()));
    match &item.list_item {
        ListItem::Container(c) => {
            assert_eq!(c.id, 3);
            assert_eq!(c.parent_id, 7);
            assert_eq!(c.title, "Films");
            assert_eq!(c.class, "object.container.storageFolder");
        }
        ListItem::Item(_) => panic!("a folder is no item"),
    }
}

#[test]
fn video_becomes_an_item_with_a_link() {
    let r = read_directory("10.0.0.2:3030", &vec![entry(EntryKind::File, "A [b].mkv")], 7, 3);
    let item = &r.list_items[0];
    assert!(item.dir.is_none());
    match &item.list_item {
        ListItem::Item(x) => {
            assert_eq!(x.id, 3);
            assert_eq!(x.parent_id, 7);
            assert_eq!(x.title, "A [b].mkv");
            assert_eq!(x.class, "object.item.videoItem");
            assert_eq!(x.res.protocol_info, "http-get:*:video/x-matroska:*");
            assert_eq!(
                x.res.content,
                "http://10.0.0.2:3030/agni-files/?filename=/mnt/Documents/A%20%5Bb%5D.mkv"
            );
        }
        ListItem::Container(_) => panic!("a video is no folder"),
    }
}

#[test]
fn suffixes_are_compared_as_they_are() {
    let entries = vec![
        entry(EntryKind::File, "a.MKV"),
        entry(EntryKind::File, ".mp4"),
        entry(EntryKind::File, "mp4"),
        entry(EntryKind::File, "b.mkv.part"),
    ];
    let r = read_directory("host", &entries, 0, 1);
    assert_eq!(titles(&r.list_items), vec![".mp4"]);
    assert_eq!(r.list_items[0].id, 2);
    assert_eq!(r.id_counter, 5);
}

#[test]
fn empty_directory_is_empty() {
    let r = read_directory("host", &vec![], 0, 9);
    assert_eq!(r.list_items.len(), 0);
    assert_eq!(r.id_counter, 9);
}

#[test]
fn ids_may_go_up_to_the_last() {
    let r = read_directory("host", &vec![entry(EntryKind::Directory, "x")], 0, u64::MAX - 1);
    assert_eq!(r.list_items[0].id, u64::MAX - 1);
    assert_eq!(r.id_counter, u64::MAX);
}

#[test]
fn links_escape_what_they_must() {
    assert_eq!(link_path("/a b"), "/a%20b");
    assert_eq!(link_path("\"<>`[]"), "%22%3C%3E%60%5B%5D");
    assert_eq!(link_path("é"), "%C3%A9");
    assert_eq!(link_path("\u{1}\u{7f}"), "%01%7F");
    assert_eq!(link_path("%+&#?~"), "%+&#?~");
}

#[test]
fn ties_stay_as_they_were() {
    let items = vec![folder(1, "ep1"), folder(2, "EP01"), folder(3, "ep0")];
    let sorted = sort_items(&items);
    assert_eq!(titles(&sorted), vec!["ep0", "ep1", "EP01"]);
    let items = vec![folder(1, "Foo"), folder(2, "Foo2")];
    assert_eq!(titles(&sort_items(&items)), vec!["Foo", "Foo2"]);
    let items = vec![folder(1, "Foo2"), folder(2, "Foo")];
    assert_eq!(titles(&sort_items(&items)), vec!["Foo2", "Foo"]);
}

#[test]
fn many_objects_are_sorted() {
    let mut items = Vec::new();
    for i in 0..200u64 {
        items.push(folder(i, &format!("part {}", (i * 37) % 200)));
    }
    let sorted = sort_items(&items);
    let expected: Vec<String> = (0..200).map(|i| format!("part {}", i)).collect();
    assert_eq!(titles(&sorted), expected);
}

#[test]
fn numbers_before_letters_beyond_ascii_decide() {
    let entries = vec![
        entry(EntryKind::File, "\u{7b2c}10\u{96c6}.mkv"),
        entry(EntryKind::File, "2\u{43e}\u{439}.mkv"),
        entry(EntryKind::File, "\u{7b2c}9\u{96c6}.mkv"),
        entry(EntryKind::File, "11\u{43e}\u{439}.mkv"),
    ];
    let r = read_directory("host", &entries, 0, 1);
    assert_eq!(
        titles(&r.list_items),
        vec![
            "2\u{43e}\u{439}.mkv",
            "11\u{43e}\u{439}.mkv",
            "\u{7b2c}9\u{96c6}.mkv",
            "\u{7b2c}10\u{96c6}.mkv"
        ]
    );
}
