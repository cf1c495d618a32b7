use mirajazz::query::{check_device, list_devices, DeviceQuery};
use mirajazz::types::DeviceInfo;

fn info(id: &str, usage_page: u16, usage_id: u16, vendor_id: u16, product_id: u16) -> DeviceInfo {
    DeviceInfo {
        id: id.to_string(),
        name: "Deck".to_string(),
        product_id,
        vendor_id,
        usage_id,
        usage_page,
        serial_number: None,
    }
}

#[test]
fn device_passes_only_if_all_ids_match() {
    let queries = [DeviceQuery::new(65440, 1, 0x0300, 0x1010), DeviceQuery::new(65440, 2, 0x6602, 0x1014)];
    let wanted = info("a", 65440, 2, 0x6602, 0x1014);
    assert_eq!(check_device(wanted.clone(), &queries), Some(wanted));
    assert_eq!(check_device(info("a", 65440, 1, 0x6602, 0x1014), &queries), None);
    assert_eq!(check_device(info("a", 65441, 2, 0x6602, 0x1014), &queries), None);
    assert_eq!(check_device(info("a", 65440, 2, 0x6603, 0x1014), &queries), None);
    assert_eq!(check_device(info("a", 65440, 2, 0x6602, 0x1015), &queries), None);
}

#[test]
fn no_query_lets_no_device_pass() {
    assert_eq!(check_device(info("a", 0, 0, 0, 0), &[]), None);
}

#[test]
fn matching_takes_page_usage_vendor_product() {
    assert!(info("a", 1, 2, 3, 4).matches(1, 2, 3, 4));
    assert!(!info("a", 1, 2, 3, 4).matches(2, 1, 3, 4));
    assert!(!info("a", 1, 2, 3, 4).matches(1, 2, 4, 3));
}

#[test]
fn listed_devices_are_the_wanted_ones_each_once() {
    let queries = [DeviceQuery::new(1, 2, 3, 4), DeviceQuery::new(1, 2, 3, 4)];
    let a = info("a", 1, 2, 3, 4);
    let b = info("b", 1, 2, 3, 4);
    let other = info("c", 1, 2, 3, 5);
    let found = [a.clone(), other, b.clone(), a.clone()];
    let listed = list_devices(&found, &queries);
    assert_eq!(listed.len(), 2);
    assert!(listed.contains(&a));
    assert!(listed.contains(&b));
    assert!(list_devices(&[], &queries).is_empty());
}

#[test]
fn devices_that_differ_in_one_part_are_both_listed() {
    let queries = [DeviceQuery::new(1, 2, 3, 4)];
    let plain = info("a", 1, 2, 3, 4);
    let mut named = plain.clone();
    named.name = "Other".to_string();
    let mut numbered = plain.clone();
    numbered.serial_number = Some("1".to_string());
    let mut renumbered = plain.clone();
    renumbered.serial_number = Some("2".to_string());
    let listed = list_devices(&[plain, named, numbered, renumbered], &queries);
    assert_eq!(listed.len(), 4);
}
