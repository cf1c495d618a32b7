use mirajazz::error::MirajazzError;
use mirajazz::query::DeviceQuery;
use mirajazz::types::{DeviceInfo, DeviceLifecycleEvent};
use mirajazz::watcher::DeviceWatcher;

fn info(id: &str, product_id: u16, name: &str) -> DeviceInfo {
    DeviceInfo {
        id: id.to_string(),
        name: name.to_string(),
        product_id,
        vendor_id: 3,
        usage_id: 2,
        usage_page: 1,
        serial_number: Some("SN".to_string()),
    }
}

fn wanted() -> [DeviceQuery; 1] {
    [DeviceQuery::new(1, 2, 3, 4)]
}

fn id(text: &str) -> String {
    text.to_string()
}

#[test]
fn watcher_can_watch_only_once() {
    let mut watcher = DeviceWatcher::new();
    assert_eq!(watcher.watch(), Ok(()));
    assert_eq!(watcher.watch(), Err(MirajazzError::WatcherAlreadyInitialized));
    assert_eq!(watcher.watch(), Err(MirajazzError::WatcherAlreadyInitialized));
}

#[test]
fn coming_and_going_is_announced() {
    let mut watcher = DeviceWatcher::new();
    let device = info("a", 4, "Deck");
    assert_eq!(
        watcher.device_connected(id("a"), &[device.clone()], &wanted()),
        Some(DeviceLifecycleEvent::Connected(device.clone()))
    );
    assert_eq!(
        watcher.device_disconnected(&id("a")),
        Some(DeviceLifecycleEvent::Disconnected(device.clone()))
    );
    assert_eq!(
        watcher.device_connected(id("a"), &[device.clone()], &wanted()),
        Some(DeviceLifecycleEvent::Connected(device))
    );
}

#[test]
fn nothing_is_announced_twice() {
    let mut watcher = DeviceWatcher::new();
    let device = info("a", 4, "Deck");
    assert!(watcher.device_connected(id("a"), &[device.clone()], &wanted()).is_some());
    assert_eq!(watcher.device_connected(id("a"), &[device], &wanted()), None);
    assert!(watcher.device_disconnected(&id("a")).is_some());
    assert_eq!(watcher.device_disconnected(&id("a")), None);
}

#[test]
fn unknown_ids_and_unwanted_devices_are_not_announced() {
    let mut watcher = DeviceWatcher::new();
    assert_eq!(watcher.device_disconnected(&id("a")), None);
    assert_eq!(watcher.device_connected(id("a"), &[info("a", 5, "Other")], &wanted()), None);
    assert_eq!(watcher.device_connected(id("a"), &[], &wanted()), None);
    assert_eq!(watcher.device_connected(id("a"), &[info("a", 4, "Deck")], &[]), None);
    assert_eq!(watcher.device_disconnected(&id("a")), None);
}

#[test]
fn devices_present_at_the_beginning_are_announced_only_when_they_go() {
    let mut watcher = DeviceWatcher::new();
    watcher.watch().unwrap();
    let device = info("a", 4, "Deck");
    watcher.already_connected(&[info("b", 5, "Other"), device.clone()], &wanted());
    assert_eq!(watcher.device_connected(id("a"), &[device.clone()], &wanted()), None);
    assert_eq!(
        watcher.device_disconnected(&id("a")),
        Some(DeviceLifecycleEvent::Disconnected(device))
    );
    assert_eq!(watcher.device_disconnected(&id("b")), None);
}

#[test]
fn last_wanted_device_behind_an_id_counts() {
    let mut watcher = DeviceWatcher::new();
    let first = info("a", 4, "First");
    let second = info("a", 4, "Second");
    let found = [first, second.clone(), info("a", 5, "Other")];
    assert_eq!(
        watcher.device_connected(id("a"), &found, &wanted()),
        Some(DeviceLifecycleEvent::Connected(second.clone()))
    );
    assert_eq!(
        watcher.device_disconnected(&id("a")),
        Some(DeviceLifecycleEvent::Disconnected(second))
    );
}

#[test]
fn id_leads_to_the_device_noted_last() {
    let mut watcher = DeviceWatcher::new();
    let first = info("a", 4, "First");
    let second = info("a", 4, "Second");
    watcher.already_connected(&[first.clone(), second.clone()], &wanted());
    assert_eq!(
        watcher.device_disconnected(&id("a")),
        Some(DeviceLifecycleEvent::Disconnected(second))
    );
    // The other one still counts as connected, though no id leads to it any more.
    assert_eq!(watcher.device_disconnected(&id("a")), None);
    assert_eq!(watcher.device_connected(id("a"), &[first], &wanted()), None);
}

#[test]
fn ids_are_kept_apart() {
    let mut watcher = DeviceWatcher::new();
    let a = info("a", 4, "A");
    let b = info("b", 4, "B");
    let c = info("c", 4, "C");
    watcher.already_connected(&[a.clone(), b.clone(), c.clone()], &wanted());
    assert_eq!(watcher.device_disconnected(&id("b")), Some(DeviceLifecycleEvent::Disconnected(b)));
    assert_eq!(watcher.device_disconnected(&id("c")), Some(DeviceLifecycleEvent::Disconnected(c)));
    assert_eq!(watcher.device_disconnected(&id("a")), Some(DeviceLifecycleEvent::Disconnected(a)));
}

#[test]
fn events_about_one_device_alternate() {
    let mut watcher = DeviceWatcher::new();
    let device = info("a", 4, "Deck");
    let mut announced: Vec<bool> = Vec::new();
    for word in [true, true, false, false, true, false, true, true] {
        let event = if word {
            watcher.device_connected(id("a"), &[device.clone()], &wanted())
        } else {
            watcher.device_disconnected(&id("a"))
        };
        match event {
            Some(DeviceLifecycleEvent::Connected(_)) => announced.push(true),
            Some(DeviceLifecycleEvent::Disconnected(_)) => announced.push(false),
            None => {}
        }
    }
    assert_eq!(announced, vec![true, false, true, false, true]);
}
