//! What holds of every watcher, whatever the host tells it.

use vstd::prelude::*;

use crate::query::QueryView;
use crate::types::{DeviceInfoView, DeviceLifecycleEvent, LifecycleView};
use crate::watcher::{event_view, last_match, WatcherView};

verus! {

/// One thing that the host tells a watcher.
pub enum Word {
    /// An id came, and these devices were found behind it.
    Came(Seq<char>, Seq<DeviceInfoView>),
    /// An id went.
    Went(Seq<char>),
}

impl WatcherView {
    /// The watcher and the event after one word of the host.
    pub open spec fn told(self, word: Word, queries: Seq<QueryView>) -> (
        WatcherView,
        Option<LifecycleView>,
    ) {
        match word {
            Word::Came(id, found) => self.id_came(id, found, queries),
            Word::Went(id) => self.id_went(id),
        }
    }

    /// The watcher after several words of the host.
    pub open spec fn told_all(self, words: Seq<Word>, queries: Seq<QueryView>) -> WatcherView
        decreases words.len(),
    {
        if words.len() == 0 {
            self
        } else {
            self.told_all(words.drop_last(), queries).told(words.last(), queries).0
        }
    }

    /// The events that come of several words of the host.
    pub open spec fn events(self, words: Seq<Word>, queries: Seq<QueryView>) -> Seq<LifecycleView>
        decreases words.len(),
    {
        if words.len() == 0 {
            Seq::empty()
        } else {
            let earlier = self.events(words.drop_last(), queries);
            match self.told_all(words.drop_last(), queries).told(words.last(), queries).1 {
                Some(event) => earlier.push(event),
                None => earlier,
            }
        }
    }

    /// Whether every id leads to a device that has this id and counts as connected.
    pub open spec fn coherent(self) -> bool {
        forall|id: Seq<char>| #[trigger]
            self.id_map.dom().contains(id) ==> self.id_map[id].id == id && self.connected.contains(
                self.id_map[id],
            )
    }

    /// Whether the watcher knows only devices that one of the queries asks for.
    pub open spec fn only_wanted(self, queries: Seq<QueryView>) -> bool {
        &&& forall|device: DeviceInfoView| #[trigger]
            self.connected.contains(device) ==> device.matches_any(queries)
        &&& forall|id: Seq<char>| #[trigger]
            self.id_map.dom().contains(id) ==> self.id_map[id].matches_any(queries)
    }
}

/// The device that an event is about.
pub open spec fn subject(event: LifecycleView) -> DeviceInfoView {
    match event {
        LifecycleView::Connected(device) => device,
        LifecycleView::Disconnected(device) => device,
    }
}

/// The connected devices after an event.
pub open spec fn apply_event(
    connected: Set<DeviceInfoView>,
    event: LifecycleView,
) -> Set<DeviceInfoView> {
    match event {
        LifecycleView::Connected(device) => connected.insert(device),
        LifecycleView::Disconnected(device) => connected.remove(device),
    }
}

/// The connected devices after several events.
pub open spec fn apply_events(
    connected: Set<DeviceInfoView>,
    events: Seq<LifecycleView>,
) -> Set<DeviceInfoView>
    decreases events.len(),
{
    if events.len() == 0 {
        connected
    } else {
        apply_event(apply_events(connected, events.drop_last()), events.last())
    }
}

/// What `last_match` gives is one of the devices found, is asked for, and is followed by no other
/// that is; it gives nothing only where none is asked for.
pub proof fn law_last_match(found: Seq<DeviceInfoView>, queries: Seq<QueryView>)
    ensures
        match last_match(found, queries) {
            Some(device) => device.matches_any(queries) && exists|i: int|
                0 <= i < found.len() && #[trigger] found[i] == device && forall|j: int|
                    i < j < found.len() ==> !(#[trigger] found[j]).matches_any(queries),
            None => forall|j: int|
                0 <= j < found.len() ==> !(#[trigger] found[j]).matches_any(queries),
        },
    decreases found.len(),
{
    if found.len() > 0 {
        let rest = found.drop_last();
        if found.last().matches_any(queries) {
            assert(found[found.len() - 1] == found.last());
        } else {
            law_last_match(rest, queries);
            match last_match(rest, queries) {
                Some(device) => {
                    let i = choose|i: int|
                        0 <= i < rest.len() && #[trigger] rest[i] == device && forall|j: int|
                            i < j < rest.len() ==> !(#[trigger] rest[j]).matches_any(queries);
                    assert(found[i] == device);
                    assert forall|j: int| i < j < found.len() implies !(
                    #[trigger] found[j]).matches_any(queries) by {
                        if j < rest.len() {
                            assert(rest[j] == found[j]);
                        }
                    }
                },
                None => {
                    assert forall|j: int| 0 <= j < found.len() implies !(
                    #[trigger] found[j]).matches_any(queries) by {
                        if j < rest.len() {
                            assert(rest[j] == found[j]);
                        }
                    }
                },
            }
        }
    }
}

/// When an id comes, the last wanted device behind it is noted under that id and counts as
/// connected; every other id and device stays as it was. It is announced exactly if it did not
/// count as connected. Where no device is wanted, nothing happens.
pub proof fn law_id_came(
    watcher: WatcherView,
    id: Seq<char>,
    found: Seq<DeviceInfoView>,
    queries: Seq<QueryView>,
)
    ensures
        ({
            let (after, event) = watcher.id_came(id, found, queries);
            &&& after.initialized == watcher.initialized
            &&& match last_match(found, queries) {
                None => after == watcher && event is None,
                Some(device) => {
                    &&& after.id_map.dom().contains(id)
                    &&& after.id_map[id] == device
                    &&& forall|other: Seq<char>|
                        other != id ==> {
                            &&& #[trigger] after.id_map.dom().contains(other)
                                == watcher.id_map.dom().contains(other)
                            &&& watcher.id_map.dom().contains(other) ==> after.id_map[other]
                                == watcher.id_map[other]
                        }
                    &&& forall|other: DeviceInfoView| #[trigger]
                        after.connected.contains(other) <==> other == device
                            || watcher.connected.contains(other)
                    &&& watcher.connected.contains(device) ==> event is None
                    &&& !watcher.connected.contains(device) ==> event
                        == Some(LifecycleView::Connected(device))
                },
            }
        }),
{
}

/// When a known id goes, it is forgotten and its device does not count as connected any more;
/// every other id and device stays as it was. The device is announced exactly if it counted as
/// connected. Where the id is not known, nothing happens.
pub proof fn law_id_went(watcher: WatcherView, id: Seq<char>)
    ensures
        ({
            let (after, event) = watcher.id_went(id);
            &&& after.initialized == watcher.initialized
            &&& !watcher.id_map.dom().contains(id) ==> after == watcher && event is None
            &&& watcher.id_map.dom().contains(id) ==> {
                let device = watcher.id_map[id];
                &&& !after.id_map.dom().contains(id)
                &&& forall|other: Seq<char>|
                    other != id ==> {
                        &&& #[trigger] after.id_map.dom().contains(other)
                            == watcher.id_map.dom().contains(other)
                        &&& watcher.id_map.dom().contains(other) ==> after.id_map[other]
                            == watcher.id_map[other]
                    }
                &&& forall|other: DeviceInfoView| #[trigger]
                    after.connected.contains(other) <==> other != device
                        && watcher.connected.contains(other)
                &&& watcher.connected.contains(device) ==> event
                    == Some(LifecycleView::Disconnected(device))
                &&& !watcher.connected.contains(device) ==> event is None
            }
        }),
{
}

/// An event that is handed out is seen as what it says, and none as none.
pub proof fn law_event_view(event: DeviceLifecycleEvent)
    ensures
        event_view(Some(event)) == Some(event@),
        event_view(None) is None,
{
}

/// Each event changes what it says and nothing else: a device is announced as connected only if
/// it did not count as connected, and as disconnected only if it did, and the connected devices
/// change by that device; without an event they stay the same.
pub proof fn law_event_tells_change(watcher: WatcherView, word: Word, queries: Seq<QueryView>)
    ensures
        match watcher.told(word, queries) {
            (after, Some(LifecycleView::Connected(device))) => !watcher.connected.contains(device)
                && after.connected == watcher.connected.insert(device),
            (after, Some(LifecycleView::Disconnected(device))) => watcher.connected.contains(
                device,
            ) && after.connected == watcher.connected.remove(device),
            (after, None) => after.connected == watcher.connected,
        },
        watcher.told(word, queries).0.initialized == watcher.initialized,
{
    match word {
        Word::Came(id, found) => {
            if let Some(device) = last_match(found, queries) {
                if watcher.connected.contains(device) {
                    assert(watcher.connected.insert(device) =~= watcher.connected);
                }
            }
        },
        Word::Went(id) => {
            if watcher.id_map.dom().contains(id) {
                let device = watcher.id_map[id];
                if !watcher.connected.contains(device) {
                    assert(watcher.connected.remove(device) =~= watcher.connected);
                }
            }
        },
    }
}

/// The devices that count as connected are always those of the beginning, changed by the events
/// since.
pub proof fn law_events_tell_all(watcher: WatcherView, words: Seq<Word>, queries: Seq<QueryView>)
    ensures
        watcher.told_all(words, queries).connected == apply_events(
            watcher.connected,
            watcher.events(words, queries),
        ),
    decreases words.len(),
{
    if words.len() > 0 {
        law_events_tell_all(watcher, words.drop_last(), queries);
        let before = watcher.told_all(words.drop_last(), queries);
        law_event_tells_change(before, words.last(), queries);
        let earlier = watcher.events(words.drop_last(), queries);
        if let Some(event) = before.told(words.last(), queries).1 {
            assert(earlier.push(event).drop_last() =~= earlier);
        }
    }
}

/// The events about one device alternate: between two that announce it as connected there is one
/// that announces it as disconnected, and the other way round.
pub proof fn law_events_alternate(
    watcher: WatcherView,
    words: Seq<Word>,
    queries: Seq<QueryView>,
    i: int,
    j: int,
)
    requires
        0 <= i < j < watcher.events(words, queries).len(),
        subject(watcher.events(words, queries)[i]) == subject(watcher.events(words, queries)[j]),
        forall|k: int|
            i < k < j ==> subject(#[trigger] watcher.events(words, queries)[k]) != subject(
                watcher.events(words, queries)[i],
            ),
    ensures
        (watcher.events(words, queries)[i] is Connected) != (watcher.events(words, queries)[j]
            is Connected),
    decreases words.len(),
{
    if words.len() > 0 {
        let earlier_words = words.drop_last();
        let earlier = watcher.events(earlier_words, queries);
        let events = watcher.events(words, queries);
        if j < earlier.len() {
            assert(events[i] == earlier[i]);
            assert(events[j] == earlier[j]);
            assert forall|k: int| i < k < j implies subject(#[trigger] earlier[k]) != subject(
                earlier[i],
            ) by {
                assert(events[k] == earlier[k]);
            }
            law_events_alternate(watcher, earlier_words, queries, i, j);
        } else {
            let before = watcher.told_all(earlier_words, queries);
            law_event_tells_change(before, words.last(), queries);
            law_events_tell_all(watcher, earlier_words, queries);
            assert(events[i] == earlier[i]);
            assert forall|k: int| i < k < earlier.len() implies subject(#[trigger] earlier[k])
                != subject(earlier[i]) by {
                assert(events[k] == earlier[k]);
            }
            lemma_last_event_decides(watcher.connected, earlier, i);
        }
    }
}

/// Whether a device counts as connected is what the last event about it says.
proof fn lemma_last_event_decides(
    connected: Set<DeviceInfoView>,
    events: Seq<LifecycleView>,
    i: int,
)
    requires
        0 <= i < events.len(),
        forall|k: int|
            i < k < events.len() ==> subject(#[trigger] events[k]) != subject(events[i]),
    ensures
        apply_events(connected, events).contains(subject(events[i])) == (events[i] is Connected),
    decreases events.len(),
{
    let rest = events.drop_last();
    if i < rest.len() {
        assert forall|k: int| i < k < rest.len() implies subject(#[trigger] rest[k]) != subject(
            rest[i],
        ) by {
            assert(events[k] == rest[k]);
        }
        lemma_last_event_decides(connected, rest, i);
        assert(events[events.len() - 1] == events.last());
    }
}

/// Noting the devices that are connected at the beginning makes exactly those of them count as
/// connected that a query asks for, besides those that did before. The order in which they are
/// found has no part in this.
pub proof fn law_primed_connected(
    watcher: WatcherView,
    found: Seq<DeviceInfoView>,
    queries: Seq<QueryView>,
)
    ensures
        forall|device: DeviceInfoView| #[trigger]
            watcher.primed(found, queries).connected.contains(device) <==> (
            watcher.connected.contains(device) || (found.contains(device) && device.matches_any(
                queries,
            ))),
        watcher.primed(found, queries).initialized == watcher.initialized,
    decreases found.len(),
{
    if found.len() > 0 {
        let rest = found.drop_last();
        law_primed_connected(watcher, rest, queries);
        assert forall|device: DeviceInfoView| #[trigger]
            watcher.primed(found, queries).connected.contains(device) <==> (
            watcher.connected.contains(device) || (found.contains(device) && device.matches_any(
                queries,
            ))) by {
            let earlier = watcher.primed(rest, queries);
            assert(earlier.connected.contains(device) <==> (watcher.connected.contains(device) || (
            rest.contains(device) && device.matches_any(queries))));
            if rest.contains(device) {
                let k = rest.index_of(device);
                assert(found[k] == device);
            }
            if found.contains(device) && device != found.last() {
                let k = found.index_of(device);
                assert(rest[k] == device);
            }
            assert(found[found.len() - 1] == found.last());
        }
    }
}

/// After the devices of the beginning are noted, an id leads to the device found last under it
/// among those that a query asks for, or else to where it led before.
pub proof fn law_primed_ids(
    watcher: WatcherView,
    found: Seq<DeviceInfoView>,
    queries: Seq<QueryView>,
    id: Seq<char>,
)
    ensures
        match last_match(found.filter(|device: DeviceInfoView| device.id == id), queries) {
            Some(device) => watcher.primed(found, queries).id_map.dom().contains(id)
                && watcher.primed(found, queries).id_map[id] == device,
            None => {
                &&& watcher.primed(found, queries).id_map.dom().contains(id)
                    == watcher.id_map.dom().contains(id)
                &&& watcher.id_map.dom().contains(id) ==> watcher.primed(found, queries).id_map[id]
                    == watcher.id_map[id]
            },
        },
    decreases found.len(),
{
    reveal(Seq::filter);
    let same_id = |device: DeviceInfoView| device.id == id;
    if found.len() > 0 {
        let rest = found.drop_last();
        law_primed_ids(watcher, rest, queries, id);
        if found.last().id == id {
            let kept = rest.filter(same_id);
            assert(found.filter(same_id) == kept.push(found.last()));
            assert(kept.push(found.last()).drop_last() =~= kept);
        }
    }
}

/// A device that is connected when the watching begins is not announced when the host tells of it
/// again.
pub proof fn law_no_event_for_present(
    watcher: WatcherView,
    present: Seq<DeviceInfoView>,
    id: Seq<char>,
    found: Seq<DeviceInfoView>,
    queries: Seq<QueryView>,
)
    requires
        last_match(found, queries) matches Some(device) && present.contains(device),
    ensures
        watcher.primed(present, queries).id_came(id, found, queries).1 is None,
{
    law_last_match(found, queries);
    law_primed_connected(watcher, present, queries);
}

/// Where a device comes that did not count as connected, under an id that was not known, and the
/// id goes again, there is one event for each, both about that device, and the watcher is as it
/// was.
pub proof fn law_come_and_go(
    watcher: WatcherView,
    id: Seq<char>,
    found: Seq<DeviceInfoView>,
    queries: Seq<QueryView>,
    device: DeviceInfoView,
)
    requires
        last_match(found, queries) == Some(device),
        !watcher.connected.contains(device),
        !watcher.id_map.dom().contains(id),
    ensures
        watcher.id_came(id, found, queries).1 == Some(LifecycleView::Connected(device)),
        watcher.id_came(id, found, queries).0.id_went(id) == (
            watcher,
            Some(LifecycleView::Disconnected(device)),
        ),
{
    let after = watcher.id_came(id, found, queries).0.id_went(id).0;
    assert(after.id_map =~= watcher.id_map);
    assert(after.connected =~= watcher.connected);
}

/// Telling the same twice makes no second event: neither that an id came, with the same devices
/// behind it, nor that it went.
pub proof fn law_no_event_twice(watcher: WatcherView, word: Word, queries: Seq<QueryView>)
    ensures
        watcher.told(word, queries).0.told(word, queries) == (
            watcher.told(word, queries).0,
            None::<LifecycleView>,
        ),
{
    let once = watcher.told(word, queries).0;
    match word {
        Word::Came(id, found) => {
            if let Some(device) = last_match(found, queries) {
                assert(once.noted(id, device) =~= once);
            }
        },
        Word::Went(id) => {},
    }
}

/// A watcher whose ids all lead to connected devices with that id stays so, as long as the host
/// finds behind an id only devices with that id.
pub proof fn law_coherent(watcher: WatcherView, word: Word, queries: Seq<QueryView>)
    requires
        watcher.coherent(),
        word matches Word::Came(id, found) ==> forall|i: int|
            0 <= i < found.len() ==> (#[trigger] found[i]).id == id,
    ensures
        watcher.told(word, queries).0.coherent(),
{
    let after = watcher.told(word, queries).0;
    match word {
        Word::Came(id, found) => {
            law_last_match(found, queries);
        },
        Word::Went(gone) => {
            if watcher.id_map.dom().contains(gone) {
                assert forall|id: Seq<char>| #[trigger]
                    after.id_map.dom().contains(id) implies after.id_map[id].id == id
                    && after.connected.contains(after.id_map[id]) by {
                    assert(watcher.id_map.dom().contains(id));
                }
            }
        },
    }
}

/// Noting the devices of the beginning keeps a watcher so that its ids all lead to connected
/// devices with that id.
pub proof fn law_primed_coherent(
    watcher: WatcherView,
    found: Seq<DeviceInfoView>,
    queries: Seq<QueryView>,
)
    requires
        watcher.coherent(),
    ensures
        watcher.primed(found, queries).coherent(),
    decreases found.len(),
{
    if found.len() > 0 {
        law_primed_coherent(watcher, found.drop_last(), queries);
    }
}

/// In a watcher whose ids all lead to connected devices, the going of a known id is always
/// announced.
pub proof fn law_known_id_announced(watcher: WatcherView, id: Seq<char>)
    requires
        watcher.coherent(),
        watcher.id_map.dom().contains(id),
    ensures
        watcher.id_went(id).1 == Some(LifecycleView::Disconnected(watcher.id_map[id])),
{
}

/// A watcher that knows only devices that a query asks for stays so, and announces no others.
pub proof fn law_only_wanted(watcher: WatcherView, word: Word, queries: Seq<QueryView>)
    requires
        watcher.only_wanted(queries),
    ensures
        watcher.told(word, queries).0.only_wanted(queries),
        watcher.told(word, queries).1 matches Some(event) ==> subject(event).matches_any(queries),
{
    if let Word::Came(id, found) = word {
        law_last_match(found, queries);
    }
}

/// Noting the devices of the beginning keeps a watcher so that it knows only devices that a query
/// asks for.
pub proof fn law_primed_only_wanted(
    watcher: WatcherView,
    found: Seq<DeviceInfoView>,
    queries: Seq<QueryView>,
)
    requires
        watcher.only_wanted(queries),
    ensures
        watcher.primed(found, queries).only_wanted(queries),
    decreases found.len(),
{
    if found.len() > 0 {
        law_primed_only_wanted(watcher, found.drop_last(), queries);
    }
}

/// Whether the host finds behind each id that comes only devices with that id.
pub open spec fn ids_agree(words: Seq<Word>) -> bool {
    forall|n: int, i: int|
        0 <= n < words.len() && words[n] is Came && 0 <= i < words[n]->Came_1.len() ==> (
        #[trigger] words[n]->Came_1[i]).id == words[n]->Came_0
}

/// From its beginning on, whatever the host tells, a new watcher knows and announces only devices
/// that a query asks for; and where the host finds behind each id only devices with that id, each
/// known id leads to a connected device with that id.
pub proof fn law_watcher_history(
    present: Seq<DeviceInfoView>,
    words: Seq<Word>,
    queries: Seq<QueryView>,
)
    ensures
        ({
            let new = WatcherView {
                initialized: true,
                id_map: Map::empty(),
                connected: Set::empty(),
            };
            let start = new.primed(present, queries);
            &&& start.told_all(words, queries).only_wanted(queries)
            &&& forall|n: int|
                0 <= n < start.events(words, queries).len() ==> subject(
                    #[trigger] start.events(words, queries)[n],
                ).matches_any(queries)
            &&& ids_agree(words) ==> start.told_all(words, queries).coherent()
        }),
    decreases words.len(),
{
    let new = WatcherView { initialized: true, id_map: Map::empty(), connected: Set::empty() };
    let start = new.primed(present, queries);
    if words.len() == 0 {
        law_primed_only_wanted(new, present, queries);
        law_primed_coherent(new, present, queries);
    } else {
        let earlier = words.drop_last();
        law_watcher_history(present, earlier, queries);
        let before = start.told_all(earlier, queries);
        law_only_wanted(before, words.last(), queries);
        if ids_agree(words) {
            assert(ids_agree(earlier)) by {
                assert forall|n: int, i: int|
                    0 <= n < earlier.len() && earlier[n] is Came && 0 <= i
                        < earlier[n]->Came_1.len() implies (#[trigger] earlier[n]->Came_1[i]).id
                    == earlier[n]->Came_0 by {
                    assert(words[n] == earlier[n]);
                    assert(words[n]->Came_1[i].id == words[n]->Came_0);
                }
            }
            if let Word::Came(id, found) = words.last() {
                assert forall|i: int| 0 <= i < found.len() implies (#[trigger] found[i]).id
                    == id by {
                    assert(words[words.len() - 1]->Came_1[i].id == words[words.len()
                        - 1]->Came_0);
                }
            }
            law_coherent(before, words.last(), queries);
        }
    }
}

} // verus!
