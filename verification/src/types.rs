//! Descriptions of devices and of what happens to them.

use vstd::prelude::*;

verus! {

/// What the host's HID system tells about a device.
#[derive(Debug, PartialEq, Eq, Hash)]
pub struct DeviceInfo {
    /// The identifier that the host uses for the device, as text.
    pub id: String,
    /// The human-readable name.
    pub name: String,
    /// The HID product id.
    pub product_id: u16,
    /// The HID vendor id.
    pub vendor_id: u16,
    /// The HID usage id.
    pub usage_id: u16,
    /// The HID usage page.
    pub usage_page: u16,
    /// The serial number, if the device has one.
    pub serial_number: Option<String>,
}

/// The contents of a [`DeviceInfo`].
#[verifier::ext_equal]
pub struct DeviceInfoView {
    pub id: Seq<char>,
    pub name: Seq<char>,
    pub product_id: u16,
    pub vendor_id: u16,
    pub usage_id: u16,
    pub usage_page: u16,
    pub serial_number: Option<Seq<char>>,
}

/// The contents of an optional string.
pub open spec fn optional_text(text: Option<String>) -> Option<Seq<char>> {
    match text {
        Some(text) => Some(text@),
        None => None,
    }
}

impl View for DeviceInfo {
    type V = DeviceInfoView;

    open spec fn view(&self) -> DeviceInfoView {
        DeviceInfoView {
            id: self.id@,
            name: self.name@,
            product_id: self.product_id,
            vendor_id: self.vendor_id,
            usage_id: self.usage_id,
            usage_page: self.usage_page,
            serial_number: optional_text(self.serial_number),
        }
    }
}

/// The contents of each description of a list.
pub open spec fn device_views(devices: Seq<DeviceInfo>) -> Seq<DeviceInfoView> {
    devices.map_values(|device: DeviceInfo| device@)
}

/// The contents of a description are its fields.
pub proof fn law_info_parts(device: DeviceInfo)
    ensures
        device@.id == device.id@,
        device@.name == device.name@,
        device@.product_id == device.product_id,
        device@.vendor_id == device.vendor_id,
        device@.usage_id == device.usage_id,
        device@.usage_page == device.usage_page,
        device@.serial_number is Some <==> device.serial_number is Some,
        device.serial_number is Some ==> device@.serial_number->0 == device.serial_number->0@,
{
}

/// The contents of a list of descriptions are those of each description in turn.
pub proof fn law_info_list(devices: Seq<DeviceInfo>)
    ensures
        device_views(devices).len() == devices.len(),
        forall|i: int|
            0 <= i < devices.len() ==> #[trigger] device_views(devices)[i] == devices[i]@,
{
}

impl Clone for DeviceInfo {
    fn clone(&self) -> (copy: Self)
        ensures
            copy@ == self@,
    {
        DeviceInfo {
            id: self.id.clone(),
            name: self.name.clone(),
            product_id: self.product_id,
            vendor_id: self.vendor_id,
            usage_id: self.usage_id,
            usage_page: self.usage_page,
            serial_number: match &self.serial_number {
                Some(serial_number) => Some(serial_number.clone()),
                None => None,
            },
        }
    }
}

impl DeviceInfo {
    /// Whether two descriptions say the same in every part.
    fn same_as(&self, other: &DeviceInfo) -> (same: bool)
        ensures
            same == (self@ == other@),
    {
        let same_serial_number: bool = match (&self.serial_number, &other.serial_number) {
            (Some(a), Some(b)) => *a == *b,
            (None, None) => true,
            _ => false,
        };
        self.id == other.id && self.name == other.name && self.product_id == other.product_id
            && self.vendor_id == other.vendor_id && self.usage_id == other.usage_id
            && self.usage_page == other.usage_page && same_serial_number
    }
}

/// Where a description stands in a list, if it does.
pub(crate) fn position_of(devices: &Vec<DeviceInfo>, device: &DeviceInfo) -> (position: Option<
    usize,
>)
    ensures
        match position {
            Some(i) => i < devices@.len() && devices@[i as int]@ == device@,
            None => !device_views(devices@).contains(device@),
        },
{
    let mut i: usize = 0;
    while i < devices.len()
        invariant
            i <= devices.len(),
            forall|j: int| 0 <= j < i ==> (#[trigger] devices@[j])@ != device@,
        decreases devices.len() - i,
    {
        if devices[i].same_as(device) {
            return Some(i);
        }
        i += 1;
    }
    proof {
        if device_views(devices@).contains(device@) {
            let j = device_views(devices@).index_of(device@);
            assert(devices@[j]@ == device@);
        }
    }
    None
}

/// Adds a description to a list that holds none twice, and tells whether it is new there.
pub(crate) fn insert_device(devices: &mut Vec<DeviceInfo>, device: DeviceInfo) -> (new: bool)
    requires
        device_views(old(devices)@).no_duplicates(),
    ensures
        device_views(final(devices)@).no_duplicates(),
        device_views(final(devices)@).to_set() == device_views(old(devices)@).to_set().insert(
            device@,
        ),
        new == !device_views(old(devices)@).contains(device@),
{
    let ghost before = device_views(devices@);
    match position_of(devices, &device) {
        Some(i) => {
            assert(before[i as int] == device@);
            assert(before.to_set() =~= before.to_set().insert(device@));
            false
        },
        None => {
            let ghost added = device@;
            devices.push(device);
            proof {
                let after = device_views(devices@);
                assert(after =~= before.push(added));
                assert forall|d: DeviceInfoView| after.to_set().contains(d)
                    == before.to_set().insert(added).contains(d) by {
                    if before.contains(d) {
                        let j = before.index_of(d);
                        assert(after[j] == d);
                    }
                    if d == added {
                        assert(after[before.len() as int] == d);
                    }
                }
                assert(after.to_set() =~= before.to_set().insert(added));
            }
            true
        },
    }
}

/// Takes a description out of a list that holds none twice, and tells whether it was there.
pub(crate) fn remove_device(devices: &mut Vec<DeviceInfo>, device: &DeviceInfo) -> (existed: bool)
    requires
        device_views(old(devices)@).no_duplicates(),
    ensures
        device_views(final(devices)@).no_duplicates(),
        device_views(final(devices)@).to_set() == device_views(old(devices)@).to_set().remove(
            device@,
        ),
        existed == device_views(old(devices)@).contains(device@),
{
    let ghost before = device_views(devices@);
    match position_of(devices, device) {
        Some(i) => {
            devices.remove(i);
            proof {
                let after = device_views(devices@);
                let k = i as int;
                assert(before[k] == device@);
                assert(after =~= before.remove(k));
                assert forall|d: DeviceInfoView| after.to_set().contains(d)
                    == before.to_set().remove(device@).contains(d) by {
                    if before.contains(d) && d != device@ {
                        let j = before.index_of(d);
                        if j < k {
                            assert(after[j] == d);
                        } else {
                            assert(after[j - 1] == d);
                        }
                    }
                    if after.contains(d) {
                        let j = after.index_of(d);
                        if j < k {
                            assert(before[j] == d);
                        } else {
                            assert(before[j + 1] == d);
                        }
                    }
                }
                assert(after.to_set() =~= before.to_set().remove(device@));
            }
            true
        },
        None => {
            assert(before.to_set() =~= before.to_set().remove(device@));
            false
        },
    }
}

/// A device came or went.
#[derive(Debug, PartialEq, Eq)]
pub enum DeviceLifecycleEvent {
    /// The device was connected.
    Connected(DeviceInfo),
    /// The device was disconnected.
    Disconnected(DeviceInfo),
}

/// The contents of a [`DeviceLifecycleEvent`].
pub enum LifecycleView {
    Connected(DeviceInfoView),
    Disconnected(DeviceInfoView),
}

impl View for DeviceLifecycleEvent {
    type V = LifecycleView;

    open spec fn view(&self) -> LifecycleView {
        match self {
            DeviceLifecycleEvent::Connected(device) => LifecycleView::Connected(device@),
            DeviceLifecycleEvent::Disconnected(device) => LifecycleView::Disconnected(device@),
        }
    }
}

/// An event tells that its device came if it says so, and else that it went.
pub proof fn law_event_parts(device: DeviceInfo)
    ensures
        DeviceLifecycleEvent::Connected(device)@ == LifecycleView::Connected(device@),
        DeviceLifecycleEvent::Disconnected(device)@ == LifecycleView::Disconnected(device@),
{
}

} // verus!
