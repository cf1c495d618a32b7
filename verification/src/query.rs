//! Finding devices.

use vstd::prelude::*;

use crate::types::{device_views, insert_device, DeviceInfo, DeviceInfoView};

verus! {

/// Struct for finding specific connected device
#[derive(Debug, Clone, Copy, PartialEq, Eq, Structural)]
pub struct DeviceQuery {
    usage_page: u16,
    usage_id: u16,
    vendor_id: u16,
    product_id: u16,
}

/// The contents of a [`DeviceQuery`].
pub struct QueryView {
    pub usage_page: u16,
    pub usage_id: u16,
    pub vendor_id: u16,
    pub product_id: u16,
}

impl View for DeviceQuery {
    type V = QueryView;

    closed spec fn view(&self) -> QueryView {
        QueryView {
            usage_page: self.usage_page,
            usage_id: self.usage_id,
            vendor_id: self.vendor_id,
            product_id: self.product_id,
        }
    }
}

/// The contents of each query of a list.
pub open spec fn query_views(queries: Seq<DeviceQuery>) -> Seq<QueryView> {
    queries.map_values(|query: DeviceQuery| query@)
}

impl DeviceInfoView {
    /// Whether the device is of the kind that the query asks for.
    pub open spec fn matches(self, query: QueryView) -> bool {
        &&& self.usage_page == query.usage_page
        &&& self.usage_id == query.usage_id
        &&& self.vendor_id == query.vendor_id
        &&& self.product_id == query.product_id
    }

    /// Whether the device is of a kind that one of the queries asks for.
    pub open spec fn matches_any(self, queries: Seq<QueryView>) -> bool {
        exists|i: int| 0 <= i < queries.len() && self.matches(#[trigger] queries[i])
    }
}

/// The contents of a query are its fields.
proof fn law_query_parts(query: DeviceQuery)
    ensures
        query@.usage_page == query.usage_page,
        query@.usage_id == query.usage_id,
        query@.vendor_id == query.vendor_id,
        query@.product_id == query.product_id,
{
}

/// The contents of a list of queries are those of each query in turn.
pub proof fn law_query_list(queries: Seq<DeviceQuery>)
    ensures
        query_views(queries).len() == queries.len(),
        forall|i: int|
            0 <= i < queries.len() ==> #[trigger] query_views(queries)[i] == queries[i]@,
{
}

/// A device matches a query exactly if they agree in usage page, usage id, vendor id and product
/// id; what else the device tells has no part in it.
pub proof fn law_matches_exactly(device: DeviceInfoView, query: QueryView)
    ensures
        device.matches(query) <==> (device.usage_page, device.usage_id) == (
            query.usage_page,
            query.usage_id,
        ) && (device.vendor_id, device.product_id) == (query.vendor_id, query.product_id),
{
}

/// Devices that match one and the same query are of the same kind, and every device of that kind
/// matches it.
pub proof fn law_one_query_one_kind(
    first: DeviceInfoView,
    second: DeviceInfoView,
    query: QueryView,
)
    requires
        first.matches(query),
    ensures
        second.matches(query) <==> first.usage_page == second.usage_page && first.usage_id
            == second.usage_id && first.vendor_id == second.vendor_id && first.product_id
            == second.product_id,
{
}

/// A device matches a list of queries exactly if it agrees with one of them in all four ids.
pub proof fn law_matches_one(device: DeviceInfoView, queries: Seq<QueryView>)
    ensures
        device.matches_any(queries) <==> exists|i: int|
            0 <= i < queries.len() && (#[trigger] queries[i]).usage_page == device.usage_page
                && queries[i].usage_id == device.usage_id && queries[i].vendor_id
                == device.vendor_id && queries[i].product_id == device.product_id,
{
    if device.matches_any(queries) {
        let i = choose|i: int| 0 <= i < queries.len() && device.matches(#[trigger] queries[i]);
        assert(queries[i].usage_page == device.usage_page);
    }
    if exists|i: int|
        0 <= i < queries.len() && (#[trigger] queries[i]).usage_page == device.usage_page
            && queries[i].usage_id == device.usage_id && queries[i].vendor_id == device.vendor_id
            && queries[i].product_id == device.product_id {
        let i = choose|i: int|
            0 <= i < queries.len() && (#[trigger] queries[i]).usage_page == device.usage_page
                && queries[i].usage_id == device.usage_id && queries[i].vendor_id
                == device.vendor_id && queries[i].product_id == device.product_id;
        assert(device.matches(queries[i]));
    }
}

/// More queries let more devices pass, never fewer.
pub proof fn law_queries_add_up(
    device: DeviceInfoView,
    first: Seq<QueryView>,
    second: Seq<QueryView>,
)
    ensures
        device.matches_any(first + second) <==> device.matches_any(first) || device.matches_any(
            second,
        ),
        !device.matches_any(Seq::empty()),
{
    let both = first + second;
    if device.matches_any(both) {
        let i = choose|i: int| 0 <= i < both.len() && device.matches(#[trigger] both[i]);
        if i < first.len() {
            assert(device.matches(first[i]));
        } else {
            assert(device.matches(second[i - first.len()]));
        }
    }
    if device.matches_any(first) {
        let i = choose|i: int| 0 <= i < first.len() && device.matches(#[trigger] first[i]);
        assert(device.matches(both[i]));
    }
    if device.matches_any(second) {
        let i = choose|i: int| 0 <= i < second.len() && device.matches(#[trigger] second[i]);
        assert(device.matches(both[first.len() + i]));
    }
}

impl DeviceQuery {
    /// A query for the devices that have exactly these ids.
    pub fn new(usage_page: u16, usage_id: u16, vendor_id: u16, product_id: u16) -> (query: Self)
        ensures
            query@ == (QueryView { usage_page, usage_id, vendor_id, product_id }),
    {
        DeviceQuery { usage_page, usage_id, vendor_id, product_id }
    }
}

impl DeviceInfo {
    /// Whether the device has exactly these ids.
    pub fn matches(
        &self,
        usage_page: u16,
        usage_id: u16,
        vendor_id: u16,
        product_id: u16,
    ) -> (matching: bool)
        ensures
            matching == self@.matches(QueryView { usage_page, usage_id, vendor_id, product_id }),
            matching <==> self.usage_page == usage_page && self.usage_id == usage_id
                && self.vendor_id == vendor_id && self.product_id == product_id,
    {
        self.usage_page == usage_page && self.usage_id == usage_id && self.vendor_id == vendor_id
            && self.product_id == product_id
    }
}

/// Whether the device is of a kind that one of the queries asks for.
pub(crate) fn wanted(device: &DeviceInfo, queries: &[DeviceQuery]) -> (any: bool)
    ensures
        any == device@.matches_any(query_views(queries@)),
{
    let ghost asked = query_views(queries@);
    let mut i: usize = 0;
    while i < queries.len()
        invariant
            i <= queries.len(),
            asked == query_views(queries@),
            forall|j: int| 0 <= j < i ==> !device@.matches(#[trigger] asked[j]),
        decreases queries.len() - i,
    {
        let query: &DeviceQuery = &queries[i];
        assert(asked[i as int] == query@);
        if device.matches(query.usage_page, query.usage_id, query.vendor_id, query.product_id) {
            return true;
        }
        i += 1;
    }
    false
}

/// Lets the device pass if it is of a kind that one of the queries asks for.
pub fn check_device(device: DeviceInfo, queries: &[DeviceQuery]) -> (passed: Option<DeviceInfo>)
    ensures
        passed == (if device@.matches_any(query_views(queries@)) {
            Some(device)
        } else {
            None
        }),
{
    if !wanted(&device, queries) {
        return None;
    }
    Some(device)
}

/// The devices found that are of a kind that one of the queries asks for, each of them once.
pub fn list_devices(found: &[DeviceInfo], queries: &[DeviceQuery]) -> (listed: Vec<DeviceInfo>)
    ensures
        device_views(listed@).no_duplicates(),
        forall|device: DeviceInfoView| #[trigger]
            device_views(listed@).contains(device) <==> device_views(found@).contains(device)
                && device.matches_any(query_views(queries@)),
        forall|device: DeviceInfoView| #[trigger]
            device_views(listed@).contains(device) ==> exists|j: int|
                0 <= j < queries@.len() && (#[trigger] queries@[j])@.usage_page
                    == device.usage_page && queries@[j]@.usage_id == device.usage_id
                    && queries@[j]@.vendor_id == device.vendor_id && queries@[j]@.product_id
                    == device.product_id,
{
    let ghost asked = query_views(queries@);
    let ghost seen = device_views(found@);
    let mut listed: Vec<DeviceInfo> = Vec::new();
    let mut i: usize = 0;
    while i < found.len()
        invariant
            i <= found.len(),
            asked == query_views(queries@),
            seen == device_views(found@),
            device_views(listed@).no_duplicates(),
            forall|device: DeviceInfoView| #[trigger]
                device_views(listed@).to_set().contains(device) <==> seen.take(
                    i as int,
                ).contains(device) && device.matches_any(asked),
        decreases found.len() - i,
    {
        let ghost before = device_views(listed@).to_set();
        assert(seen.take(i + 1) =~= seen.take(i as int).push(found@[i as int]@));
        if let Some(device) = check_device(found[i].clone(), queries) {
            insert_device(&mut listed, device);
        }
        i += 1;
        proof {
            let added = seen[i - 1];
            assert forall|device: DeviceInfoView| #[trigger]
                device_views(listed@).to_set().contains(device) <==> seen.take(
                    i as int,
                ).contains(device) && device.matches_any(asked) by {
                assert(before.contains(device) <==> seen.take(i - 1).contains(device)
                    && device.matches_any(asked));
                if seen.take(i - 1).contains(device) {
                    let j = seen.take(i - 1).index_of(device);
                    assert(seen.take(i as int)[j] == device);
                }
                assert(seen.take(i as int)[i - 1] == added);
            }
        }
    }
    assert(seen.take(i as int) =~= seen);
    assert forall|device: DeviceInfoView| #[trigger]
        device_views(listed@).contains(device) <==> seen.contains(device) && device.matches_any(
            asked,
        ) by {
        assert(device_views(listed@).to_set().contains(device) == device_views(listed@).contains(
            device,
        ));
    }
    assert forall|device: DeviceInfoView| #[trigger]
        device_views(listed@).contains(device) implies exists|j: int|
        0 <= j < queries@.len() && (#[trigger] queries@[j])@.usage_page == device.usage_page
            && queries@[j]@.usage_id == device.usage_id && queries@[j]@.vendor_id
            == device.vendor_id && queries@[j]@.product_id == device.product_id by {
        let j = choose|j: int| 0 <= j < asked.len() && device.matches(#[trigger] asked[j]);
        assert(asked[j] == queries@[j]@);
    }
    listed
}

} // verus!
