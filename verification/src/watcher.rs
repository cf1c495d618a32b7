//! Watching devices come and go.

use vstd::prelude::*;

use crate::error::MirajazzError;
use crate::query::{check_device, query_views, DeviceQuery, QueryView};
use crate::types::{
    device_views, insert_device, remove_device, DeviceInfo, DeviceInfoView, DeviceLifecycleEvent,
    LifecycleView,
};

verus! {

/// Turns what the host tells about ids into events about devices.
pub struct DeviceWatcher {
    initialized: bool,
    id_map: Vec<(String, DeviceInfo)>,
    connected: Vec<DeviceInfo>,
}

/// The contents of a [`DeviceWatcher`].
#[verifier::ext_equal]
pub struct WatcherView {
    /// Whether the watcher is in use.
    pub initialized: bool,
    /// The device that was last seen behind each id.
    pub id_map: Map<Seq<char>, DeviceInfoView>,
    /// The devices that count as connected.
    pub connected: Set<DeviceInfoView>,
}

/// The last description that one of the queries asks for.
pub open spec fn last_match(found: Seq<DeviceInfoView>, queries: Seq<QueryView>) -> Option<
    DeviceInfoView,
>
    decreases found.len(),
{
    if found.len() == 0 {
        None
    } else if found.last().matches_any(queries) {
        Some(found.last())
    } else {
        last_match(found.drop_last(), queries)
    }
}

/// The contents of an optional event.
pub open spec fn event_view(event: Option<DeviceLifecycleEvent>) -> Option<LifecycleView> {
    match event {
        Some(event) => Some(event@),
        None => None,
    }
}

impl WatcherView {
    /// The watcher once it has noted that `device` is connected under `id`.
    pub open spec fn noted(self, id: Seq<char>, device: DeviceInfoView) -> WatcherView {
        WatcherView {
            id_map: self.id_map.insert(id, device),
            connected: self.connected.insert(device),
            ..self
        }
    }

    /// The watcher once it has noted, one after another, the devices found that one of the
    /// queries asks for.
    pub open spec fn primed(
        self,
        found: Seq<DeviceInfoView>,
        queries: Seq<QueryView>,
    ) -> WatcherView
        decreases found.len(),
    {
        if found.len() == 0 {
            self
        } else {
            let earlier = self.primed(found.drop_last(), queries);
            if found.last().matches_any(queries) {
                earlier.noted(found.last().id, found.last())
            } else {
                earlier
            }
        }
    }

    /// The watcher and the event after the host has told that an id came. Of the devices found
    /// behind it the last one that a query asks for counts; there is an event unless it counts
    /// as connected already.
    pub open spec fn id_came(
        self,
        id: Seq<char>,
        found: Seq<DeviceInfoView>,
        queries: Seq<QueryView>,
    ) -> (WatcherView, Option<LifecycleView>) {
        match last_match(found, queries) {
            None => (self, None),
            Some(device) => (
                self.noted(id, device),
                if self.connected.contains(device) {
                    None
                } else {
                    Some(LifecycleView::Connected(device))
                },
            ),
        }
    }

    /// The watcher and the event after the host has told that an id went. There is an event if
    /// the id is known and its device counts as connected.
    pub open spec fn id_went(self, id: Seq<char>) -> (WatcherView, Option<LifecycleView>) {
        if self.id_map.dom().contains(id) {
            let device = self.id_map[id];
            (
                WatcherView {
                    id_map: self.id_map.remove(id),
                    connected: self.connected.remove(device),
                    ..self
                },
                if self.connected.contains(device) {
                    Some(LifecycleView::Disconnected(device))
                } else {
                    None
                },
            )
        } else {
            (self, None)
        }
    }
}

/// The map that a list of entries stands for.
spec fn entry_map(entries: Seq<(String, DeviceInfo)>) -> Map<Seq<char>, DeviceInfoView>
    decreases entries.len(),
{
    if entries.len() == 0 {
        Map::empty()
    } else {
        entry_map(entries.drop_last()).insert(entries.last().0@, entries.last().1@)
    }
}

/// Whether no id occurs twice.
spec fn ids_distinct(entries: Seq<(String, DeviceInfo)>) -> bool {
    forall|i: int, j: int|
        0 <= i < j < entries.len() ==> (#[trigger] entries[i]).0@ != (#[trigger] entries[j]).0@
}

/// In a list of entries with distinct ids, each entry is one of the map, and there are no others.
proof fn lemma_entry_map(entries: Seq<(String, DeviceInfo)>)
    requires
        ids_distinct(entries),
    ensures
        forall|i: int|
            0 <= i < entries.len() ==> entry_map(entries).dom().contains(
                (#[trigger] entries[i]).0@,
            ) && entry_map(entries)[entries[i].0@] == entries[i].1@,
        forall|id: Seq<char>| #[trigger]
            entry_map(entries).dom().contains(id) ==> exists|i: int|
                0 <= i < entries.len() && (#[trigger] entries[i]).0@ == id,
    decreases entries.len(),
{
    if entries.len() > 0 {
        let rest = entries.drop_last();
        assert forall|i: int, j: int| 0 <= i < j < rest.len() implies (#[trigger] rest[i]).0@ != (
        #[trigger] rest[j]).0@ by {
            assert(entries[i].0@ != entries[j].0@);
        }
        lemma_entry_map(rest);
        assert forall|i: int| 0 <= i < entries.len() implies entry_map(entries).dom().contains(
            (#[trigger] entries[i]).0@,
        ) && entry_map(entries)[entries[i].0@] == entries[i].1@ by {
            if i < rest.len() {
                assert(rest[i] == entries[i]);
                assert(entries[i].0@ != entries[entries.len() - 1].0@);
            }
        }
        assert forall|id: Seq<char>| #[trigger]
            entry_map(entries).dom().contains(id) implies exists|i: int|
            0 <= i < entries.len() && (#[trigger] entries[i]).0@ == id by {
            if id == entries.last().0@ {
                assert(entries[entries.len() - 1].0@ == id);
            } else {
                assert(entry_map(rest).dom().contains(id));
                let i = choose|i: int| 0 <= i < rest.len() && (#[trigger] rest[i]).0@ == id;
                assert(entries[i].0@ == id);
            }
        }
    }
}

/// Where the entry for an id stands, if there is one.
fn entry_position(entries: &Vec<(String, DeviceInfo)>, id: &String) -> (position: Option<usize>)
    requires
        ids_distinct(entries@),
    ensures
        match position {
            Some(i) => i < entries@.len() && entries@[i as int].0@ == id@ && entry_map(
                entries@,
            ).dom().contains(id@) && entry_map(entries@)[id@] == entries@[i as int].1@,
            None => !entry_map(entries@).dom().contains(id@) && forall|j: int|
                0 <= j < entries@.len() ==> (#[trigger] entries@[j]).0@ != id@,
        },
{
    proof {
        lemma_entry_map(entries@);
    }
    let mut i: usize = 0;
    while i < entries.len()
        invariant
            i <= entries.len(),
            ids_distinct(entries@),
            forall|j: int| 0 <= j < i ==> (#[trigger] entries@[j]).0@ != id@,
        decreases entries.len() - i,
    {
        if entries[i].0 == *id {
            proof {
                lemma_entry_map(entries@);
            }
            return Some(i);
        }
        i += 1;
    }
    None
}

/// Sets the device for an id, in place of the one that it may have had.
fn insert_entry(entries: &mut Vec<(String, DeviceInfo)>, id: String, device: DeviceInfo)
    requires
        ids_distinct(old(entries)@),
    ensures
        ids_distinct(final(entries)@),
        entry_map(final(entries)@) == entry_map(old(entries)@).insert(id@, device@),
{
    let ghost key = id@;
    let ghost value = device@;
    let ghost before = entries@;
    match entry_position(entries, &id) {
        Some(i) => {
            entries.set(i, (id, device));
        },
        None => {
            entries.push((id, device));
        },
    }
    proof {
        let after = entries@;
        lemma_entry_map(before);
        lemma_entry_map(after);
        assert forall|k: Seq<char>| entry_map(after).dom().contains(k) == entry_map(before).insert(
            key,
            value,
        ).dom().contains(k) by {
            if entry_map(after).dom().contains(k) {
                let i = choose|i: int| 0 <= i < after.len() && (#[trigger] after[i]).0@ == k;
                if i < before.len() {
                    assert(before[i].0@ == k);
                }
            }
            if entry_map(before).dom().contains(k) {
                let i = choose|i: int| 0 <= i < before.len() && (#[trigger] before[i]).0@ == k;
                assert(after[i].0@ == k);
            }
            if k == key {
                assert(exists|i: int| 0 <= i < after.len() && (#[trigger] after[i]).0@ == k);
            }
        }
        assert forall|k: Seq<char>| entry_map(after).dom().contains(k) implies entry_map(after)[k]
            == entry_map(before).insert(key, value)[k] by {
            let i = choose|i: int| 0 <= i < after.len() && (#[trigger] after[i]).0@ == k;
            if k != key {
                assert(before[i] == after[i]);
            }
        }
        assert(entry_map(after) =~= entry_map(before).insert(key, value));
    }
}

/// Takes out the entry for an id and gives its device, if there is one.
fn remove_entry(entries: &mut Vec<(String, DeviceInfo)>, id: &String) -> (device: Option<
    DeviceInfo,
>)
    requires
        ids_distinct(old(entries)@),
    ensures
        ids_distinct(final(entries)@),
        entry_map(final(entries)@) == entry_map(old(entries)@).remove(id@),
        match device {
            Some(device) => entry_map(old(entries)@).dom().contains(id@) && entry_map(
                old(entries)@,
            )[id@] == device@,
            None => !entry_map(old(entries)@).dom().contains(id@),
        },
{
    let ghost before = entries@;
    match entry_position(entries, id) {
        Some(i) => {
            let (_, device) = entries.remove(i);
            proof {
                let after = entries@;
                let gap = i as int;
                assert(after == before.remove(gap));
                assert forall|a: int, b: int| 0 <= a < b < after.len() implies (
                #[trigger] after[a]).0@ != (#[trigger] after[b]).0@ by {
                    let a1 = if a < gap {
                        a
                    } else {
                        a + 1
                    };
                    let b1 = if b < gap {
                        b
                    } else {
                        b + 1
                    };
                    assert(before[a1].0@ != before[b1].0@);
                }
                lemma_entry_map(before);
                lemma_entry_map(after);
                assert forall|k: Seq<char>| entry_map(after).dom().contains(k) == entry_map(
                    before,
                ).remove(id@).dom().contains(k) by {
                    if entry_map(after).dom().contains(k) {
                        let j = choose|j: int| 0 <= j < after.len() && (#[trigger] after[j]).0@
                            == k;
                        if j < gap {
                            assert(before[j].0@ == k);
                            assert(before[j].0@ != before[gap].0@);
                        } else {
                            assert(before[j + 1].0@ == k);
                            assert(before[gap].0@ != before[j + 1].0@);
                        }
                    }
                    if entry_map(before).dom().contains(k) && k != id@ {
                        let j = choose|j: int| 0 <= j < before.len() && (#[trigger] before[j]).0@
                            == k;
                        if j < gap {
                            assert(after[j].0@ == k);
                        } else {
                            assert(after[j - 1].0@ == k);
                        }
                    }
                }
                assert forall|k: Seq<char>| entry_map(after).dom().contains(k) implies entry_map(
                    after,
                )[k] == entry_map(before).remove(id@)[k] by {
                    let j = choose|j: int| 0 <= j < after.len() && (#[trigger] after[j]).0@ == k;
                    if j < gap {
                        assert(before[j] == after[j]);
                    } else {
                        assert(before[j + 1] == after[j]);
                    }
                }
                assert(entry_map(after) =~= entry_map(before).remove(id@));
            }
            Some(device)
        },
        None => {
            assert(entry_map(before) =~= entry_map(before).remove(id@));
            None
        },
    }
}

impl View for DeviceWatcher {
    type V = WatcherView;

    closed spec fn view(&self) -> WatcherView {
        WatcherView {
            initialized: self.initialized,
            id_map: entry_map(self.id_map@),
            connected: device_views(self.connected@).to_set(),
        }
    }
}

/// The contents of a watcher are its fields: an id leads to the device that it is listed with,
/// and the connected devices are those listed.
proof fn law_watcher_parts(watcher: DeviceWatcher)
    requires
        watcher.wf(),
    ensures
        watcher@.initialized == watcher.initialized,
        forall|i: int|
            0 <= i < watcher.id_map@.len() ==> watcher@.id_map.dom().contains(
                (#[trigger] watcher.id_map@[i]).0@,
            ) && watcher@.id_map[watcher.id_map@[i].0@] == watcher.id_map@[i].1@,
        forall|id: Seq<char>| #[trigger]
            watcher@.id_map.dom().contains(id) ==> exists|i: int|
                0 <= i < watcher.id_map@.len() && (#[trigger] watcher.id_map@[i]).0@ == id,
        forall|device: DeviceInfoView| #[trigger]
            watcher@.connected.contains(device) <==> exists|i: int|
                0 <= i < watcher.connected@.len() && (#[trigger] watcher.connected@[i])@ == device,
{
    lemma_entry_map(watcher.id_map@);
    let views = device_views(watcher.connected@);
    assert forall|device: DeviceInfoView| #[trigger]
        watcher@.connected.contains(device) <==> exists|i: int|
            0 <= i < watcher.connected@.len() && (#[trigger] watcher.connected@[i])@ == device by {
        if views.contains(device) {
            let i = views.index_of(device);
            assert(watcher.connected@[i]@ == device);
        }
        if exists|i: int|
            0 <= i < watcher.connected@.len() && (#[trigger] watcher.connected@[i])@ == device {
            let i = choose|i: int|
                0 <= i < watcher.connected@.len() && (#[trigger] watcher.connected@[i])@ == device;
            assert(views[i] == device);
        }
    }
}

impl DeviceWatcher {
    /// What holds of every watcher: no id and no connected device is kept twice.
    pub closed spec fn wf(&self) -> bool {
        &&& ids_distinct(self.id_map@)
        &&& device_views(self.connected@).no_duplicates()
    }

    /// Builds new device watcher
    pub fn new() -> (watcher: Self)
        ensures
            watcher.wf(),
            watcher@ == (WatcherView {
                initialized: false,
                id_map: Map::empty(),
                connected: Set::empty(),
            }),
    {
        let watcher = DeviceWatcher {
            initialized: false,
            id_map: Vec::new(),
            connected: Vec::new(),
        };
        assert(watcher@.connected =~= Set::empty());
        watcher
    }

    /// Claims the watcher for the watching that is about to begin.
    ///
    /// **NOTE:** Can only be called once per instance of [DeviceWatcher]
    pub fn watch(&mut self) -> (res: Result<(), MirajazzError>)
        requires
            old(self).wf(),
        ensures
            final(self).wf(),
            res is Ok <==> !old(self)@.initialized,
            res matches Err(error) ==> error == MirajazzError::WatcherAlreadyInitialized,
            final(self)@ == (WatcherView { initialized: true, ..old(self)@ }),
    {
        if self.initialized {
            return Err(MirajazzError::WatcherAlreadyInitialized);
        }
        self.initialized = true;
        Ok(())
    }

    /// Notes that a device is connected under an id, and tells whether it did not count as
    /// connected before.
    fn note(&mut self, id: String, device: DeviceInfo) -> (new: bool)
        requires
            old(self).wf(),
        ensures
            final(self).wf(),
            final(self)@ == old(self)@.noted(id@, device@),
            new == !old(self)@.connected.contains(device@),
    {
        insert_entry(&mut self.id_map, id, device.clone());
        insert_device(&mut self.connected, device)
    }

    /// Notes the devices that are connected when the watching begins, so that they are known when
    /// they go. There are no events for them.
    pub fn already_connected(&mut self, found: &[DeviceInfo], queries: &[DeviceQuery])
        requires
            old(self).wf(),
        ensures
            final(self).wf(),
            final(self)@ == old(self)@.primed(device_views(found@), query_views(queries@)),
    {
        let ghost seen = device_views(found@);
        let ghost asked = query_views(queries@);
        let mut i: usize = 0;
        assert(seen.take(0).len() == 0);
        while i < found.len()
            invariant
                i <= found.len(),
                seen == device_views(found@),
                asked == query_views(queries@),
                self.wf(),
                self@ == old(self)@.primed(seen.take(i as int), asked),
            decreases found.len() - i,
        {
            assert(seen.take(i + 1).drop_last() =~= seen.take(i as int));
            assert(seen.take(i + 1).last() == found@[i as int]@);
            if let Some(device) = check_device(found[i].clone(), queries) {
                self.note(device.id.clone(), device);
            }
            i += 1;
        }
        assert(seen.take(i as int) =~= seen);
    }

    /// Handles the host's word that an id came, with what it finds behind that id.
    pub fn device_connected(
        &mut self,
        id: String,
        found: &[DeviceInfo],
        queries: &[DeviceQuery],
    ) -> (event: Option<DeviceLifecycleEvent>)
        requires
            old(self).wf(),
        ensures
            final(self).wf(),
            (final(self)@, event_view(event)) == old(self)@.id_came(
                id@,
                device_views(found@),
                query_views(queries@),
            ),
    {
        let ghost seen = device_views(found@);
        let ghost asked = query_views(queries@);
        let mut last: Option<DeviceInfo> = None;
        let mut i: usize = found.len();
        assert(seen.take(i as int) =~= seen);
        while i > 0 && last.is_none()
            invariant
                i <= found.len(),
                seen == device_views(found@),
                asked == query_views(queries@),
                match last {
                    Some(device) => last_match(seen, asked) == Some(device@),
                    None => last_match(seen, asked) == last_match(seen.take(i as int), asked),
                },
            decreases i,
        {
            assert(seen.take(i as int).drop_last() =~= seen.take(i - 1));
            assert(seen.take(i as int).last() == found@[i - 1]@);
            i -= 1;
            last = check_device(found[i].clone(), queries);
        }
        match last {
            None => None,
            Some(info) => {
                let new: bool = self.note(id, info.clone());
                if new {
                    Some(DeviceLifecycleEvent::Connected(info))
                } else {
                    None
                }
            },
        }
    }

    /// Handles the host's word that an id went.
    pub fn device_disconnected(&mut self, id: &String) -> (event: Option<DeviceLifecycleEvent>)
        requires
            old(self).wf(),
        ensures
            final(self).wf(),
            (final(self)@, event_view(event)) == old(self)@.id_went(id@),
    {
        match remove_entry(&mut self.id_map, id) {
            None => {
                assert(self@.id_map =~= old(self)@.id_map);
                None
            },
            Some(info) => {
                let existed: bool = remove_device(&mut self.connected, &info);
                if existed {
                    Some(DeviceLifecycleEvent::Disconnected(info))
                } else {
                    None
                }
            },
        }
    }
}

} // verus!
