//! The server's memory: the listings that are kept, and every object that has been handed out.
use std::collections::HashMap;
use vstd::prelude::*;
use lru_cache::LruCache;
use crate::directory::{
    law_listing_objects, listed, sorted_version, DirEntryView, ReadDirectoryReturnType,
};
use crate::outside::{cache_entries, cache_get, cache_insert, cache_limit, cache_new};
use crate::types::{
    items_view, AppUuid, Container, ContainerView, Item, ItemView, ListItem, ListItemView,
    ListItemWrapper, ListItemWrapperView,
};

verus! {

broadcast use vstd::std_specs::hash::group_hash_axioms;

/// The entries of a cache, from the one used longest ago to the one used last.
pub type Entries = Seq<(u64, Seq<ListItemWrapperView>)>;

/// The id of the folder that holds everything.
pub const ROOT_ID: u64 = 0;

/// How many listings are kept.
pub const CACHE_CAPACITY: usize = 100;

/// There is an entry with this key.
pub open spec fn has_key(entries: Entries, key: u64) -> bool {
    exists|i: int| 0 <= i < entries.len() && (#[trigger] entries[i]).0 == key
}

/// The listing under a key, if there is one.
pub open spec fn found(entries: Entries, key: u64) -> Option<Seq<ListItemWrapperView>> {
    if has_key(entries, key) {
        Some(entries[choose|i: int| 0 <= i < entries.len() && (#[trigger] entries[i]).0 == key].1)
    } else {
        None
    }
}

/// The entries with other keys.
pub open spec fn others(entries: Entries, key: u64) -> Entries {
    entries.filter(|e: (u64, Seq<ListItemWrapperView>)| e.0 != key)
}

/// The entries after one has been put in.
pub open spec fn inserted(
    entries: Entries,
    limit: nat,
    key: u64,
    items: Seq<ListItemWrapperView>,
) -> Entries {
    let all = others(entries, key).push((key, items));
    if all.len() > limit {
        all.skip(1)
    } else {
        all
    }
}

/// The entries after one has been looked up.
pub open spec fn refreshed(entries: Entries, key: u64) -> Entries {
    match found(entries, key) {
        Some(items) => others(entries, key).push((key, items)),
        None => entries,
    }
}

/// What the server remembers.
pub struct AppState {
    pub cache: LruCache<u64, Vec<ListItemWrapper>>,
    pub id_counter: u64,
    pub item_map: HashMap<u64, ListItemWrapper>,
    pub uuid: AppUuid,
}

/// What the root folder holds.
pub open spec fn root_items() -> Seq<ListItemWrapperView> {
    seq![
        ListItemWrapperView {
            list_item: ListItemView::Container(
                ContainerView {
                    id: 1,
                    parent_id: 0,
                    title: "Documents"@,
                    class: "object.container.storageFolder"@,
                },
            ),
            id: 1,
            dir: Some("/mnt/Documents"@),
        },
    ]
}

/// A cache that holds the listing of the root folder.
pub fn get_cache() -> (r: LruCache<u64, Vec<ListItemWrapper>>)
    ensures
        cache_entries(r) == seq![(ROOT_ID, root_items())],
        cache_limit(r) == CACHE_CAPACITY,
{
    let mut items: Vec<ListItemWrapper> = Vec::new();
    items.push(
        ListItemWrapper {
            list_item: ListItem::Container(
                Container {
                    id: 1,
                    parent_id: 0,
                    title: "Documents".to_string(),
                    class: "object.container.storageFolder".to_string(),
                },
            ),
            id: 1,
            dir: Some("/mnt/Documents".to_string()),
        },
    );
    let numbered = number_items(items);
    let mut cache = cache_new(CACHE_CAPACITY);
    cache_insert(&mut cache, ROOT_ID, numbered);
    proof {
        assert(items_view(numbered@) =~= root_items());
        let none: Entries = seq![];
        assert(others(none, ROOT_ID) =~= none);
        assert(none.push((ROOT_ID, root_items())) =~= seq![(ROOT_ID, root_items())]);
    }
    cache
}

/// An object under another id.
pub open spec fn with_id(item: ListItemWrapperView, id: u64) -> ListItemWrapperView {
    ListItemWrapperView {
        list_item: match item.list_item {
            ListItemView::Container(c) => ListItemView::Container(ContainerView { id, ..c }),
            ListItemView::Item(i) => ListItemView::Item(ItemView { id, ..i }),
        },
        id,
        dir: item.dir,
    }
}

/// Numbers objects from one on, in the order in which they stand.
fn number_items(items: Vec<ListItemWrapper>) -> (r: Vec<ListItemWrapper>)
    requires
        items@.len() < u64::MAX,
    ensures
        r@.len() == items@.len(),
        forall|i: int|
            0 <= i < r@.len() ==> (#[trigger] r@[i])@ == with_id(items@[i]@, (i + 1) as u64),
{
    let mut r: Vec<ListItemWrapper> = Vec::new();
    let mut i: usize = 0;
    while i < items.len()
        invariant
            i <= items@.len(),
            items@.len() < u64::MAX,
            r@.len() == i,
            forall|j: int|
                0 <= j < i ==> (#[trigger] r@[j])@ == with_id(items@[j]@, (j + 1) as u64),
        decreases items@.len() - i,
    {
        let id: u64 = i as u64 + 1;
        let item = items[i].clone();
        let list_item = match item.list_item {
            ListItem::Container(c) => ListItem::Container(Container { id, ..c }),
            ListItem::Item(x) => ListItem::Item(Item { id, ..x }),
        };
        r.push(ListItemWrapper { list_item, id, dir: item.dir });
        i += 1;
    }
    r
}

/// Objects under their ids.
pub type ItemMap = Map<u64, ListItemWrapperView>;

#[verifier::ext_equal]
pub ghost struct AppStateView {
    pub cache: Entries,
    pub cache_limit: nat,
    pub id_counter: u64,
    pub items: ItemMap,
    pub uuid: Seq<char>,
}

/// The view of a map of objects.
pub open spec fn map_view(m: Map<u64, ListItemWrapper>) -> ItemMap {
    m.map_values(|i: ListItemWrapper| i@)
}

impl View for AppState {
    type V = AppStateView;

    open spec fn view(&self) -> AppStateView {
        AppStateView {
            cache: cache_entries(self.cache),
            cache_limit: cache_limit(self.cache),
            id_counter: self.id_counter,
            items: map_view(self.item_map@),
            uuid: self.uuid@,
        }
    }
}

/// A map of objects after more have been put in, each under its id.
pub open spec fn with_items(m: ItemMap, items: Seq<ListItemWrapperView>) -> ItemMap
    decreases items.len(),
{
    if items.len() == 0 {
        m
    } else {
        with_items(m, items.drop_last()).insert(items.last().id, items.last())
    }
}

/// Puts objects into a map, each under its id.
fn remember(map: &mut HashMap<u64, ListItemWrapper>, items: &Vec<ListItemWrapper>)
    ensures
        map_view(final(map)@) == with_items(map_view(old(map)@), items_view(items@)),
{
    let ghost m = map_view(map@);
    let ghost all = items_view(items@);
    let mut i: usize = 0;
    assert(all.take(0) =~= Seq::<ListItemWrapperView>::empty());
    while i < items.len()
        invariant
            i <= items@.len(),
            all == items_view(items@),
            map_view(map@) == with_items(m, all.take(i as int)),
        decreases items@.len() - i,
    {
        let ghost before = map@;
        let item = items[i].clone();
        let ghost view = item@;
        map.insert(item.id, item);
        proof {
            assert(all.take(i + 1).drop_last() =~= all.take(i as int));
            assert(all.take(i + 1).last() == view);
            assert(map_view(map@) =~= map_view(before).insert(view.id, view));
        }
        i += 1;
    }
    assert(all.take(i as int) =~= all);
}

impl AppStateView {
    /// Only the root folder's listing is kept, and every object that has been handed out is known
    /// under an id of its own, below the next free one.
    pub open spec fn well_formed(self) -> bool {
        &&& self.cache == seq![(ROOT_ID, root_items())]
        &&& self.cache_limit == CACHE_CAPACITY
        &&& self.id_counter > ROOT_ID
        &&& forall|id: u64| #[trigger]
            self.items.contains_key(id) ==> {
                &&& self.items[id].id == id
                &&& self.items[id].well_formed()
                &&& ROOT_ID < id < self.id_counter
            }
    }
}

/// The state in which the server starts.
pub open spec fn start_state(uuid: Seq<char>) -> AppStateView {
    AppStateView {
        cache: seq![(ROOT_ID, root_items())],
        cache_limit: CACHE_CAPACITY as nat,
        id_counter: 2,
        items: map![1u64 => root_items()[0]],
        uuid,
    }
}

/// Looking up the only entry of a cache changes nothing.
pub proof fn single_entry(entries: Entries, key: u64, items: Seq<ListItemWrapperView>)
    requires
        entries == seq![(ROOT_ID, items)],
    ensures
        found(entries, key) == (if key == ROOT_ID {
            Some(items)
        } else {
            None
        }),
        refreshed(entries, key) == entries,
{
    assert(entries[0].0 == ROOT_ID);
    if key == ROOT_ID {
        assert(has_key(entries, key));
        let p = |e: (u64, Seq<ListItemWrapperView>)| e.0 != key;
        assert(entries.drop_last() =~= Seq::empty());
        assert(entries.last().0 == key);
        reveal_with_fuel(Seq::filter, 2);
        assert(entries.filter(p) =~= Seq::empty());
        assert(others(entries, key).push((key, items)) =~= entries);
    }
}

/// The state in which the server starts.
pub fn start(uuid: AppUuid) -> (r: AppState)
    ensures
        r@ == start_state(uuid@),
        cache_limit(r.cache) == CACHE_CAPACITY,
        r@.well_formed(),
{
    let mut cache = get_cache();
    proof {
        single_entry(cache_entries(cache), ROOT_ID, root_items());
    }
    let mut item_map: HashMap<u64, ListItemWrapper> = HashMap::new();
    let mut count: usize = 0;
    match cache_get(&mut cache, ROOT_ID) {
        Some(items) => {
            remember(&mut item_map, items);
            count = items.len();
            proof {
                let none = map_view(Map::<u64, ListItemWrapper>::empty());
                assert(root_items().drop_last() =~= Seq::empty());
                reveal_with_fuel(with_items, 2);
                assert(with_items(none, root_items()) =~= map![1u64 => root_items()[0]]);
                assert(items_view(items@).len() == 1);
            }
        },
        None => {},
    }
    let id_counter: u64 = (count + 1) as u64;
    AppState { cache, id_counter, item_map, uuid }
}

/// What is done about a request to browse an object.
pub enum BrowseStep {
    /// There is no such object.
    NotFound,
    /// The listing is at hand.
    Listed(Vec<ListItemWrapper>),
    /// A directory has to be read first: its path, the object that it stands for, and the next
    /// free id.
    Read { path: String, object_id: u64, id_counter: u64 },
}

/// Why an object cannot be browsed.
#[derive(Clone, Copy, Debug, PartialEq, Eq, Structural)]
pub enum BrowseError {
    /// No object with this id has been handed out.
    UnknownObject,
    /// The object is no folder.
    NotAFolder,
}

#[verifier::ext_equal]
pub ghost enum BrowseStepView {
    NotFound,
    Listed(Seq<ListItemWrapperView>),
    Read { path: Seq<char>, object_id: u64, id_counter: u64 },
}

impl View for BrowseStep {
    type V = BrowseStepView;

    open spec fn view(&self) -> BrowseStepView {
        match self {
            BrowseStep::NotFound => BrowseStepView::NotFound,
            BrowseStep::Listed(items) => BrowseStepView::Listed(items_view(items@)),
            BrowseStep::Read { path, object_id, id_counter } => BrowseStepView::Read {
                path: path@,
                object_id: *object_id,
                id_counter: *id_counter,
            },
        }
    }
}

/// What is done about a request to browse an object.
pub open spec fn browse_outcome(s: AppStateView, object_id: u64) -> Result<
    BrowseStepView,
    BrowseError,
> {
    if object_id == u64::MAX {
        Ok(BrowseStepView::NotFound)
    } else if has_key(s.cache, object_id) {
        Ok(BrowseStepView::Listed(found(s.cache, object_id).unwrap()))
    } else if !s.items.contains_key(object_id) {
        Err(BrowseError::UnknownObject)
    } else {
        match s.items[object_id].dir {
            Some(path) => Ok(
                BrowseStepView::Read { path, object_id, id_counter: s.id_counter },
            ),
            None => Err(BrowseError::NotAFolder),
        }
    }
}

/// The state after an object has been looked up.
pub open spec fn browsed(s: AppStateView, object_id: u64) -> AppStateView {
    if object_id == u64::MAX {
        s
    } else {
        AppStateView { cache: refreshed(s.cache, object_id), ..s }
    }
}

/// A step's outcome, by its view.
pub open spec fn outcome_view(r: Result<BrowseStep, BrowseError>) -> Result<
    BrowseStepView,
    BrowseError,
> {
    match r {
        Ok(step) => Ok(step@),
        Err(e) => Err(e),
    }
}

/// A copy of a list of objects.
fn copy_items(items: &Vec<ListItemWrapper>) -> (r: Vec<ListItemWrapper>)
    ensures
        items_view(r@) == items_view(items@),
{
    let mut r: Vec<ListItemWrapper> = Vec::new();
    let mut i: usize = 0;
    while i < items.len()
        invariant
            i <= items@.len(),
            r@.len() == i,
            forall|j: int| 0 <= j < i ==> (#[trigger] r@[j])@ == items@[j]@,
        decreases items@.len() - i,
    {
        r.push(items[i].clone());
        i += 1;
    }
    assert(items_view(r@) =~= items_view(items@));
    r
}

impl AppState {
    /// Decides what is done about a request to browse an object.
    pub fn browse(&mut self, object_id: u64) -> (r: Result<BrowseStep, BrowseError>)
        ensures
            outcome_view(r) == browse_outcome(old(self)@, object_id),
            final(self)@ == browsed(old(self)@, object_id),
            cache_limit(final(self).cache) == cache_limit(old(self).cache),
            old(self)@.well_formed() ==> final(self)@.well_formed(),
    {
        if object_id == u64::MAX {
            return Ok(BrowseStep::NotFound);
        }
        proof {
            if self@.well_formed() {
                single_entry(self@.cache, object_id, root_items());
            }
        }
        match cache_get(&mut self.cache, object_id) {
            Some(items) => {
                return Ok(BrowseStep::Listed(copy_items(items)));
            },
            None => {},
        }
        match self.item_map.get(&object_id) {
            Some(item) => match &item.dir {
                Some(path) => Ok(
                    BrowseStep::Read { path: path.clone(), object_id, id_counter: self.id_counter },
                ),
                None => Err(BrowseError::NotAFolder),
            },
            None => Err(BrowseError::UnknownObject),
        }
    }

    /// Takes in the listing of a directory: its objects become known, and its ids are used up.
    pub fn record(&mut self, listing: &ReadDirectoryReturnType)
        ensures
            final(self)@ == recorded(
                old(self)@,
                items_view(listing.list_items@),
                listing.id_counter,
            ),
            cache_limit(final(self).cache) == cache_limit(old(self).cache),
    {
        self.id_counter = listing.id_counter;
        remember(&mut self.item_map, &listing.list_items);
    }
}

/// The state after a listing has been taken in.
pub open spec fn recorded(
    s: AppStateView,
    items: Seq<ListItemWrapperView>,
    id_counter: u64,
) -> AppStateView {
    AppStateView { id_counter, items: with_items(s.items, items), ..s }
}

/// What a map of objects holds once objects with ids of their own have been put in.
proof fn with_items_holds(m: ItemMap, items: Seq<ListItemWrapperView>)
    requires
        forall|i: int, j: int|
            0 <= i < j < items.len() ==> (#[trigger] items[i]).id != (#[trigger] items[j]).id,
    ensures
        forall|i: int|
            0 <= i < items.len() ==> with_items(m, items).contains_key((#[trigger] items[i]).id)
                && with_items(m, items)[items[i].id] == items[i],
        forall|id: u64| #[trigger]
            with_items(m, items).contains_key(id) ==> {
                ||| m.contains_key(id) && with_items(m, items)[id] == m[id]
                ||| exists|i: int|
                    0 <= i < items.len() && (#[trigger] items[i]).id == id && with_items(
                        m,
                        items,
                    )[id] == items[i]
            },
        forall|id: u64|
            m.contains_key(id) && (forall|i: int|
                0 <= i < items.len() ==> (#[trigger] items[i]).id != id) ==> #[trigger] with_items(
                m,
                items,
            ).contains_key(id) && with_items(m, items)[id] == m[id],
    decreases items.len(),
{
    if items.len() > 0 {
        let front = items.drop_last();
        with_items_holds(m, front);
        let before = with_items(m, front);
        let after = with_items(m, items);
        assert forall|i: int| 0 <= i < items.len() implies after.contains_key(
            (#[trigger] items[i]).id,
        ) && after[items[i].id] == items[i] by {
            if i < front.len() {
                assert(front[i] == items[i]);
                assert(items[i].id != items[items.len() - 1].id);
            }
        }
        assert forall|id: u64| #[trigger] after.contains_key(id) implies {
            ||| m.contains_key(id) && after[id] == m[id]
            ||| exists|i: int|
                0 <= i < items.len() && (#[trigger] items[i]).id == id && after[id] == items[i]
        } by {
            if id == items.last().id {
                assert(items[items.len() - 1].id == id);
            } else {
                assert(before.contains_key(id));
                if !(m.contains_key(id) && before[id] == m[id]) {
                    let i = choose|i: int|
                        0 <= i < front.len() && (#[trigger] front[i]).id == id && before[id]
                            == front[i];
                    assert(items[i].id == id);
                }
            }
        }
        assert forall|id: u64|
            m.contains_key(id) && (forall|i: int|
                0 <= i < items.len() ==> (#[trigger] items[i]).id != id) implies
            #[trigger] after.contains_key(id) && after[id] == m[id] by {
            assert forall|i: int| 0 <= i < front.len() implies (#[trigger] front[i]).id != id by {
                assert(items[i].id != id);
            }
            assert(before.contains_key(id));
            assert(items[items.len() - 1].id != id);
        }
    }
}

/// The root folder can always be browsed, from what the server keeps.
pub proof fn law_root_listed(s: AppStateView)
    requires
        s.well_formed(),
    ensures
        browse_outcome(s, ROOT_ID) == Ok::<_, BrowseError>(BrowseStepView::Listed(root_items())),
        browsed(s, ROOT_ID) == s,
{
    single_entry(s.cache, ROOT_ID, root_items());
    assert(s.cache[0].0 == ROOT_ID);
}

/// Taking in the listing of a directory keeps the state well formed and forgets nothing, and from
/// then on every folder of the listing can be browsed: its own directory is read.
pub proof fn law_listed_folders_browsable(
    s: AppStateView,
    hostname: Seq<char>,
    parent_id: u64,
    entries: Seq<DirEntryView>,
    items: Seq<ListItemWrapperView>,
)
    requires
        s.well_formed(),
        s.id_counter + entries.len() <= u64::MAX,
        sorted_version(listed(hostname, parent_id, s.id_counter as int, entries), items),
    ensures
        ({
            let after = recorded(s, items, (s.id_counter + entries.len()) as u64);
            &&& after.well_formed()
            &&& forall|id: u64| #[trigger]
                s.items.contains_key(id) ==> after.items.contains_key(id) && after.items[id]
                    == s.items[id]
            &&& forall|i: int|
                0 <= i < items.len() ==> (#[trigger] items[i]).list_item is Container
                    ==> browse_outcome(after, items[i].id) == Ok::<_, BrowseError>(
                    BrowseStepView::Read {
                        path: items[i].dir.unwrap(),
                        object_id: items[i].id,
                        id_counter: after.id_counter,
                    },
                )
        }),
{
    law_listing_objects(hostname, parent_id, s.id_counter, entries, items);
    with_items_holds(s.items, items);
    let after = recorded(s, items, (s.id_counter + entries.len()) as u64);
    assert forall|id: u64| #[trigger] s.items.contains_key(id) implies after.items.contains_key(id)
        && after.items[id] == s.items[id] by {
        assert(id < s.id_counter);
        assert forall|i: int| 0 <= i < items.len() implies (#[trigger] items[i]).id != id by {}
        assert(with_items(s.items, items).contains_key(id));
    }
    assert forall|i: int|
        0 <= i < items.len() && (#[trigger] items[i]).list_item is Container implies browse_outcome(
        after,
        items[i].id,
    ) == Ok::<_, BrowseError>(
        BrowseStepView::Read {
            path: items[i].dir.unwrap(),
            object_id: items[i].id,
            id_counter: after.id_counter,
        },
    ) by {
        single_entry(after.cache, items[i].id, root_items());
        assert(items[i].well_formed());
    }
}

} // verus!
