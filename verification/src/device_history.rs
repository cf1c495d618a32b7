//! What holds of a device over its whole life, from its connection on.

use vstd::prelude::*;

use crate::call::{started, writing, CallView, Completion, ReplyView};
use crate::device::{send_all_reports, send_reports, DeviceView, ImageView};
use crate::report::{
    brightness_command, clear_command, commit_command, dark_command, display_command, extended,
    goodbye_command, image_command, image_reports, keep_alive_command, led_brightness_command,
    led_colors_command, mode_command, sleep_command,
};

verus! {

/// One of the things that a device can be asked to do.
pub enum Operation {
    Reset,
    SetBrightness(u8),
    SetLedBrightness(u8),
    SetLedColors(Seq<[u8; 3]>),
    WriteImage(u8, Seq<u8>),
    ClearButtonImage(u8),
    ClearAllButtonImages,
    SetButtonImage(u8),
    Sleep,
    KeepAlive,
    Shutdown,
    Flush,
    SetMode(u8),
    WriteData(Seq<u8>),
    WriteExtendedData(Seq<u8>),
    WithSupportsBothEncoderStates(bool),
}

impl Operation {
    /// Whether the operation initializes the device where needed.
    pub open spec fn initializes(self) -> bool {
        match self {
            Operation::WriteImage(_, _) => false,
            Operation::SetMode(_) => false,
            Operation::WriteData(_) => false,
            Operation::WriteExtendedData(_) => false,
            Operation::WithSupportsBothEncoderStates(_) => false,
            _ => true,
        }
    }
}

/// What a report is there for.
pub enum Purpose {
    /// It carries a command of the library.
    Command,
    /// It sets the mode.
    Mode,
    /// It carries a packet of an image.
    Packet,
    /// It carries what the user writes directly.
    Data,
}

/// A report and what it is there for.
pub struct Entry {
    pub purpose: Purpose,
    pub report: Seq<u8>,
}

/// The reports of several entries.
pub open spec fn entry_reports(entries: Seq<Entry>) -> Seq<Seq<u8>> {
    entries.map_values(|entry: Entry| entry.report)
}

/// Reports that are all there for the same.
pub open spec fn all_for(purpose: Purpose, reports: Seq<Seq<u8>>) -> Seq<Entry> {
    reports.map_values(|report: Seq<u8>| Entry { purpose, report })
}

/// The reports that send several images: of each the announcement, then its packets.
pub open spec fn image_entries(images: Seq<ImageView>, packet_size: nat) -> Seq<Entry>
    decreases images.len(),
{
    if images.len() == 0 {
        Seq::empty()
    } else {
        let image = images.last();
        image_entries(images.drop_last(), packet_size) + all_for(
            Purpose::Command,
            seq![extended(image_command(image.data.len(), image.key), packet_size + 1)],
        ) + all_for(Purpose::Packet, image_reports(image.data, packet_size))
    }
}

impl DeviceView {
    /// The device and the call on it at the start of an operation.
    pub open spec fn begun(self, operation: Operation) -> (DeviceView, CallView) {
        match operation {
            Operation::Reset => (self.awake(), self.reset_call()),
            Operation::SetBrightness(percent) => (
                self.awake(),
                self.command_call(brightness_command(percent)),
            ),
            Operation::SetLedBrightness(percent) => (
                self.awake(),
                self.command_call(led_brightness_command(percent)),
            ),
            Operation::SetLedColors(colors) => (
                self.awake(),
                self.command_call(led_colors_command(colors)),
            ),
            Operation::WriteImage(key, data) => (
                DeviceView { images: self.images.push(ImageView { key, data }), ..self },
                writing(Seq::empty()),
            ),
            Operation::ClearButtonImage(key) => (self.awake(), self.clear_call(key)),
            Operation::ClearAllButtonImages => (self.awake(), self.clear_call(0xff)),
            Operation::SetButtonImage(key) => (
                self.awake(),
                started(self.initialize_reports(), Completion::StoreImage { key }),
            ),
            Operation::Sleep => (self.awake(), self.command_call(sleep_command())),
            Operation::KeepAlive => (self.awake(), self.command_call(keep_alive_command())),
            Operation::Shutdown => (self.awake(), self.shutdown_call()),
            Operation::Flush => (self.awake(), self.flush_call()),
            Operation::SetMode(mode) => (self, writing(seq![self.report(mode_command(mode))])),
            Operation::WriteData(payload) => (self, writing(seq![payload])),
            Operation::WriteExtendedData(payload) => (self, writing(seq![self.report(payload)])),
            Operation::WithSupportsBothEncoderStates(supports) => (
                DeviceView { supports_both_encoder_states: supports, ..self },
                writing(Seq::empty()),
            ),
        }
    }

    /// The reports of an operation, with what each is there for.
    pub open spec fn planned(self, operation: Operation) -> Seq<Entry> {
        let reports = self.begun(operation).1.reports;
        match operation {
            Operation::Flush => if self.images.len() == 0 && !self.clear_waits {
                all_for(Purpose::Command, reports)
            } else {
                all_for(Purpose::Command, self.initialize_reports()) + image_entries(
                    self.images,
                    self.packet_size,
                ) + all_for(Purpose::Command, seq![self.report(commit_command())])
            },
            Operation::SetMode(_) => all_for(Purpose::Mode, reports),
            Operation::WriteData(_) => all_for(Purpose::Data, reports),
            Operation::WriteExtendedData(_) => all_for(Purpose::Data, reports),
            _ => all_for(Purpose::Command, reports),
        }
    }

    /// The report that begins the initialization.
    pub open spec fn first_report(self) -> Entry {
        Entry { purpose: Purpose::Command, report: self.report(display_command()) }
    }
}

/// An operation, and the replies that its call gets, which may stop at any point.
pub struct Deed {
    pub operation: Operation,
    pub replies: Seq<ReplyView>,
}

impl DeviceView {
    /// The device and the call on it after a deed.
    pub open spec fn done(self, deed: Deed) -> (DeviceView, CallView) {
        let (device, call) = self.begun(deed.operation);
        device.resumed_all(call, deed.replies)
    }

    /// The reports that a deed asks for: those that are written, and the next one.
    pub open spec fn asked(self, deed: Deed) -> Seq<Entry> {
        let call = self.done(deed).1;
        let planned = self.planned(deed.operation);
        if call.written < planned.len() {
            planned.take(call.written as int + 1)
        } else {
            planned
        }
    }

    /// The device after several deeds, one after the other.
    pub open spec fn done_all(self, deeds: Seq<Deed>) -> DeviceView
        decreases deeds.len(),
    {
        if deeds.len() == 0 {
            self
        } else {
            self.done_all(deeds.drop_last()).done(deeds.last()).0
        }
    }

    /// The reports that several deeds ask for, in order.
    pub open spec fn asked_all(self, deeds: Seq<Deed>) -> Seq<Entry>
        decreases deeds.len(),
    {
        if deeds.len() == 0 {
            Seq::empty()
        } else {
            self.asked_all(deeds.drop_last()) + self.done_all(deeds.drop_last()).asked(deeds.last())
        }
    }
}

/// Whether a report may be asked for before the device is initialized.
pub open spec fn needs_no_initialization(entry: Entry) -> bool {
    entry.purpose is Mode || entry.purpose is Data
}

/// The plan of an operation consists of the reports of its call.
pub proof fn law_planned(device: DeviceView, operation: Operation)
    ensures
        entry_reports(device.planned(operation)) == device.begun(operation).1.reports,
{
    let reports = device.begun(operation).1.reports;
    match operation {
        Operation::Flush => {
            if device.images.len() == 0 && !device.clear_waits {
                assert(entry_reports(all_for(Purpose::Command, reports)) =~= reports);
            } else {
                lemma_image_entries(device.images, device.packet_size);
                assert(entry_reports(device.planned(operation)) =~= reports);
            }
        },
        Operation::SetMode(_) => {
            assert(entry_reports(all_for(Purpose::Mode, reports)) =~= reports);
        },
        Operation::WriteData(_) => {
            assert(entry_reports(all_for(Purpose::Data, reports)) =~= reports);
        },
        Operation::WriteExtendedData(_) => {
            assert(entry_reports(all_for(Purpose::Data, reports)) =~= reports);
        },
        _ => {
            assert(entry_reports(all_for(Purpose::Command, reports)) =~= reports);
        },
    }
}

proof fn lemma_image_entries(images: Seq<ImageView>, packet_size: nat)
    ensures
        entry_reports(image_entries(images, packet_size)) == send_all_reports(images, packet_size),
    decreases images.len(),
{
    if images.len() == 0 {
        assert(entry_reports(image_entries(images, packet_size)) =~= Seq::empty());
    } else {
        lemma_image_entries(images.drop_last(), packet_size);
        assert(entry_reports(image_entries(images, packet_size)) =~= send_all_reports(
            images.drop_last(),
            packet_size,
        ) + send_reports(images.last(), packet_size));
    }
}

/// None of the reports that send images begins the initialization.
proof fn lemma_images_no_first(images: Seq<ImageView>, packet_size: nat)
    requires
        packet_size >= 512,
    ensures
        forall|i: int|
            0 <= i < image_entries(images, packet_size).len() ==> #[trigger] image_entries(
                images,
                packet_size,
            )[i] != (Entry {
                purpose: Purpose::Command,
                report: extended(display_command(), packet_size + 1),
            }),
    decreases images.len(),
{
    if images.len() > 0 {
        let image = images.last();
        lemma_images_no_first(images.drop_last(), packet_size);
        assert(extended(image_command(image.data.len(), image.key), packet_size + 1)[6] == 0x42);
        assert(extended(display_command(), packet_size + 1)[6] == 0x44);
    }
}

/// Only the first report of an initialization begins it, and no report of a plan without one
/// does.
proof fn lemma_planned_first(device: DeviceView, operation: Operation)
    requires
        device.wf(),
    ensures
        ({
            let planned = device.planned(operation);
            let begins = operation.initializes() && !device.initialized;
            &&& begins ==> planned.len() >= 2 && planned[0] == device.first_report()
            &&& forall|i: int|
                0 <= i < planned.len() && #[trigger] planned[i] == device.first_report() ==> begins
                    && i == 0
            &&& !operation.initializes() ==> forall|i: int|
                0 <= i < planned.len() ==> needs_no_initialization(#[trigger] planned[i])
        }),
{
    let planned = device.planned(operation);
    assert(device.report(display_command())[6] == 0x44);
    assert(device.report(dark_command())[6] == 0x4c);
    assert(device.report(commit_command())[6] == 0x53);
    match operation {
        Operation::Reset => {
            assert(device.report(brightness_command(100))[6] == 0x4c);
            assert(device.report(clear_command(0xff))[6] == 0x43);
        },
        Operation::SetBrightness(percent) => {
            assert(device.report(brightness_command(percent))[6] == 0x4c);
        },
        Operation::SetLedBrightness(percent) => {
            assert(device.report(led_brightness_command(percent))[6] == 0x4c);
        },
        Operation::SetLedColors(colors) => {
            assert(device.report(led_colors_command(colors))[6] == 0x53);
        },
        Operation::ClearButtonImage(key) => {
            assert(device.report(clear_command(key))[6] == 0x43);
        },
        Operation::ClearAllButtonImages => {
            assert(device.report(clear_command(0xff))[6] == 0x43);
        },
        Operation::Sleep => {
            assert(device.report(sleep_command())[6] == 0x48);
        },
        Operation::KeepAlive => {
            assert(device.report(keep_alive_command())[6] == 0x43);
        },
        Operation::Shutdown => {
            assert(device.report(goodbye_command())[6] == 0x43);
            assert(device.report(sleep_command())[6] == 0x48);
        },
        Operation::Flush => {
            lemma_images_no_first(device.images, device.packet_size);
        },
        _ => {},
    }
}

/// No reply undoes the initialization, begins one, or changes how the device is talked to.
proof fn lemma_replies_keep(device: DeviceView, call: CallView, replies: Seq<ReplyView>)
    ensures
        ({
            let now = device.resumed_all(call, replies).0;
            &&& now.initialized == device.initialized
            &&& now.protocol_version == device.protocol_version
            &&& now.packet_size == device.packet_size
        }),
    decreases replies.len(),
{
    if replies.len() > 0 {
        lemma_replies_keep(device, call, replies.drop_last());
    }
}

/// What one deed does to the initialization.
proof fn lemma_deed(device: DeviceView, deed: Deed)
    requires
        device.wf(),
    ensures
        ({
            let now = device.done(deed).0;
            let asked = device.asked(deed);
            let begins = deed.operation.initializes() && !device.initialized;
            &&& now.wf()
            &&& now.packet_size == device.packet_size
            &&& now.initialized == (device.initialized || deed.operation.initializes())
            &&& begins ==> asked.len() > 0 && asked[0] == device.first_report()
            &&& begins ==> !asked.drop_first().contains(device.first_report())
            &&& !begins ==> !asked.contains(device.first_report())
            &&& !deed.operation.initializes() ==> forall|i: int|
                0 <= i < asked.len() ==> #[trigger] needs_no_initialization(asked[i])
        }),
{
    let (begun, call) = device.begun(deed.operation);
    lemma_replies_keep(begun, call, deed.replies);
    lemma_planned_first(device, deed.operation);
    let planned = device.planned(deed.operation);
    let asked = device.asked(deed);
    assert(forall|i: int| 0 <= i < asked.len() ==> #[trigger] asked[i] == planned[i]);
}

/// Whether the report `first` occurs at most once among those asked for, only reports that need no
/// initialization come before it, and every other report comes after it.
pub open spec fn leads(first: Entry, asked: Seq<Entry>) -> bool {
    &&& forall|p: int, q: int|
        0 <= p < asked.len() && 0 <= q < asked.len() && #[trigger] asked[p] == first
            && #[trigger] asked[q] == first ==> p == q
    &&& forall|p: int, q: int|
        #![trigger asked[p], needs_no_initialization(asked[q])]
        0 <= q < p < asked.len() && asked[p] == first ==> needs_no_initialization(asked[q])
    &&& forall|q: int|
        0 <= q < asked.len() && !#[trigger] needs_no_initialization(asked[q]) ==> exists|p: int|
            0 <= p <= q && #[trigger] asked[p] == first
}

/// Over the whole life of a device, whatever is done with it one thing after another and whatever
/// fails, the report that begins the initialization is asked for at most once. Before it only
/// reports are asked for that set the mode or carry what the user writes directly, and every
/// other report comes after it.
pub proof fn law_initialized_once(device: DeviceView, deeds: Seq<Deed>)
    requires
        device.wf(),
        !device.initialized,
    ensures
        leads(device.first_report(), device.asked_all(deeds)),
{
    lemma_history(device, deeds);
}

/// A device is marked as initialized from the time on at which the initialization is begun, and
/// only then; the report that begins it leads.
proof fn lemma_history(device: DeviceView, deeds: Seq<Deed>)
    requires
        device.wf(),
        !device.initialized,
    ensures
        device.done_all(deeds).wf(),
        device.done_all(deeds).packet_size == device.packet_size,
        device.done_all(deeds).initialized == device.asked_all(deeds).contains(
            device.first_report(),
        ),
        leads(device.first_report(), device.asked_all(deeds)),
    decreases deeds.len(),
{
    if deeds.len() > 0 {
        let earlier = deeds.drop_last();
        lemma_history(device, earlier);
        let before = device.done_all(earlier);
        lemma_deed(before, deeds.last());
        assert(before.first_report() == device.first_report());
        lemma_leads(
            device.first_report(),
            device.asked_all(earlier),
            before.asked(deeds.last()),
        );
    }
}

/// The report `first` still leads when more is asked for, where that is led by it if it has not
/// come yet, and holds it not once more if it has.
proof fn lemma_leads(first: Entry, past: Seq<Entry>, added: Seq<Entry>)
    requires
        leads(first, past),
        !needs_no_initialization(first),
        past.contains(first) ==> !added.contains(first),
        !past.contains(first) ==> {
            ||| added.len() > 0 && added[0] == first && !added.drop_first().contains(first)
            ||| forall|i: int|
                0 <= i < added.len() ==> #[trigger] needs_no_initialization(added[i])
        },
    ensures
        leads(first, past + added),
        (past + added).contains(first) == (past.contains(first) || added.contains(first)),
{
    let asked = past + added;
    let n = past.len() as int;
    if past.contains(first) {
        let k = past.index_of(first);
        assert(asked[k] == first);
    } else {
        assert forall|q: int| 0 <= q < n implies #[trigger] needs_no_initialization(past[q]) by {
            if !needs_no_initialization(past[q]) {
                let p = choose|p: int| 0 <= p <= q && #[trigger] past[p] == first;
                assert(past.contains(first));
            }
        }
    }
    if added.contains(first) {
        let k = added.index_of(first);
        assert(asked[n + k] == first);
    }
    let known = past.contains(first);
    assert forall|p: int| 0 <= p < asked.len() && #[trigger] asked[p] == first implies (if known {
        p < n && past[p] == first
    } else {
        p == n
    }) by {
        if p < n {
            assert(past[p] == first);
            assert(past.contains(first));
        } else {
            assert(added[p - n] == first);
            assert(added.contains(first));
            if !past.contains(first) && p > n {
                assert(!needs_no_initialization(added[p - n]));
                assert(added.drop_first()[p - n - 1] == first);
            }
        }
    }
    assert forall|p: int, q: int|
        #![trigger asked[p], needs_no_initialization(asked[q])]
        0 <= q < p < asked.len() && asked[p] == first implies needs_no_initialization(
        asked[q],
    ) by {
        assert(asked[q] == past[q]);
        assert(needs_no_initialization(past[q]));
    }
    assert forall|q: int|
        0 <= q < asked.len() && !#[trigger] needs_no_initialization(asked[q]) implies exists|
        p: int,
    |
        0 <= p <= q && #[trigger] asked[p] == first by {
        if q < n {
            assert(!needs_no_initialization(past[q]));
            let p = choose|p: int| 0 <= p <= q && #[trigger] past[p] == first;
            assert(asked[p] == first);
        } else {
            assert(!needs_no_initialization(added[q - n]));
            if past.contains(first) {
                let p = past.index_of(first);
                assert(asked[p] == first);
            } else {
                assert(asked[n] == first);
            }
        }
    }
}

/// Once an operation has begun the initialization, no later deed begins it again, and none makes
/// the device count as not initialized.
pub proof fn law_stays_initialized(device: DeviceView, deeds: Seq<Deed>)
    requires
        device.wf(),
        device.initialized,
    ensures
        device.done_all(deeds).initialized,
        device.done_all(deeds).initialize_reports().len() == 0,
        !device.asked_all(deeds).contains(device.first_report()),
{
    lemma_stays(device, deeds);
}

proof fn lemma_stays(device: DeviceView, deeds: Seq<Deed>)
    requires
        device.wf(),
        device.initialized,
    ensures
        device.done_all(deeds).initialized,
        device.done_all(deeds).wf(),
        device.done_all(deeds).packet_size == device.packet_size,
        !device.asked_all(deeds).contains(device.first_report()),
    decreases deeds.len(),
{
    if deeds.len() > 0 {
        lemma_stays(device, deeds.drop_last());
        let before = device.done_all(deeds.drop_last());
        lemma_deed(before, deeds.last());
        let past = device.asked_all(deeds.drop_last());
        let added = before.asked(deeds.last());
        let asked = device.asked_all(deeds);
        assert(asked == past + added);
        if asked.contains(device.first_report()) {
            let p = asked.index_of(device.first_report());
            if p < past.len() {
                assert(past[p] == device.first_report());
            } else {
                assert(added[p - past.len()] == before.first_report());
            }
        }
    }
}

/// An initialization that fails at its first report is not taken up again: the call fails without
/// asking for its second report, the device counts as initialized all the same, and whatever is
/// done next writes no initialization.
pub proof fn law_failed_initialization(device: DeviceView, operation: Operation, next: Seq<Deed>)
    requires
        device.wf(),
        !device.initialized,
        operation.initializes(),
    ensures
        ({
            let deed = Deed { operation, replies: seq![ReplyView::Failed] };
            let (now, call) = device.done(deed);
            &&& device.begun(operation).1.reports[1] == device.report(dark_command())
            &&& device.asked(deed) == seq![device.first_report()]
            &&& call.request() is Failed
            &&& now == device.awake()
            &&& now.initialize_reports().len() == 0
            &&& now.done_all(next).initialize_reports().len() == 0
            &&& !now.asked_all(next).contains(device.first_report())
        }),
{
    let deed = Deed { operation, replies: seq![ReplyView::Failed] };
    let (begun, call) = device.begun(operation);
    lemma_planned_first(device, operation);
    law_planned(device, operation);
    assert(entry_reports(device.planned(operation)).len() == device.planned(operation).len());
    assert(seq![ReplyView::Failed].drop_last() =~= Seq::empty());
    assert(begun.resumed_all(call, Seq::<ReplyView>::empty()) == (begun, call));
    assert(device.done(deed) == begun.resumed(call, ReplyView::Failed));
    assert(device.asked(deed) =~= seq![device.first_report()]);
    lemma_stays(device.awake(), next);
    assert(device.awake().first_report() == device.first_report());
}

/// Every operation that initializes the device does so before anything else.
pub proof fn law_initialization_first(device: DeviceView, operation: Operation)
    requires
        operation.initializes(),
    ensures
        device.begun(operation).0.initialized,
        device.initialize_reports().len() == if device.initialized {
            0nat
        } else {
            2nat
        },
        device.initialize_reports().is_prefix_of(device.begun(operation).1.reports),
{
}

} // verus!
