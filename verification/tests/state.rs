use agni::directory::{read_directory, DirEntry, EntryKind};
use agni::state::{get_cache, start, AppState, BrowseError, BrowseStep};
use agni::types::{AppUuid, ListItem};

fn fresh() -> AppState {
    start(AppUuid::new([7; 16]))
}

#[test]
fn cache_starts_with_the_root() {
    let mut cache = get_cache();
    assert_eq!(cache.len(), 1);
    assert_eq!(cache.capacity(), 100);
    let items = cache.get_mut(&0).unwrap();
    assert_eq!(items.len(), 1);
    assert_eq!(items[0].id, 1);
    assert_eq!(items[0].dir, Some("/mnt/Documents".to_string()));
    match &items[0].list_item {
        ListItem::Container(c) => {
            assert_eq!(c.id, 1);
            assert_eq!(c.parent_id, 0);
            assert_eq!(c.title, "Documents");
            assert_eq!(c.class, "object.container.storageFolder");
        }
        ListItem::Item(_) => panic!("the root holds a folder"),
    }
}

#[test]
fn server_starts_with_one_object() {
    let s = fresh();
    assert_eq!(s.id_counter, 2);
    assert_eq!(s.item_map.len(), 1);
    assert_eq!(s.item_map[&1].id, 1);
    assert_eq!(s.uuid.bytes, [7; 16]);
    assert_eq!(s.cache.capacity(), 100);
    assert_eq!(s.cache.len(), 1);
}

#[test]
fn root_is_listed_from_the_cache() {
    let mut s = fresh();
    for _ in 0..2 {
        match s.browse(0) {
            Ok(BrowseStep::Listed(items)) => {
                assert_eq!(items.len(), 1);
                assert_eq!(items[0].id, 1);
            }
            _ => panic!("the root is at hand"),
        }
    }
}

#[test]
fn last_id_stands_for_no_object() {
    assert!(matches!(fresh().browse(u64::MAX), Ok(BrowseStep::NotFound)));
}

#[test]
fn unknown_object_cannot_be_browsed() {
    assert!(matches!(fresh().browse(2), Err(BrowseError::UnknownObject)));
}

#[test]
fn folder_has_to_be_read() {
    match fresh().browse(1) {
        Ok(BrowseStep::Read { path, object_id, id_counter }) => {
            assert_eq!(path, "/mnt/Documents");
            assert_eq!(object_id, 1);
            assert_eq!(id_counter, 2);
        }
        _ => panic!("the folder is not at hand"),
    }
}

#[test]
fn listed_folders_can_be_browsed() {
    let mut s = fresh();
    let entries = vec![
        DirEntry {
            kind: EntryKind::File,
            file_name: "a.mkv".to_string(),
            path: "/mnt/Documents/a.mkv".to_string(),
        },
        DirEntry {
            kind: EntryKind::Directory,
            file_name: "Films".to_string(),
            path: "/mnt/Documents/Films".to_string(),
        },
    ];
    let listing = read_directory("host", &entries, 1, s.id_counter);
    s.record(&listing);
    assert_eq!(s.id_counter, 4);
    assert_eq!(s.item_map.len(), 3);
    match s.browse(3) {
        Ok(BrowseStep::Read { path, object_id, id_counter }) => {
            assert_eq!(path, "/mnt/Documents/Films");
            assert_eq!(object_id, 3);
            assert_eq!(id_counter, 4);
        }
        _ => panic!("a listed folder can be read"),
    }
    assert!(matches!(s.browse(2), Err(BrowseError::NotAFolder)));
    assert!(matches!(s.browse(1), Ok(BrowseStep::Read { .. })));
    assert!(matches!(s.browse(0), Ok(BrowseStep::Listed(_))));
}
