//! What the reports of each call are, byte by byte and for every device.

use vstd::prelude::*;

use crate::call::{Completion, RequestView};
use crate::device::{
    connected_device, send_all_reports, send_reports, without_first, DeviceView, ImageView,
};
use crate::device_laws::{law_flush_succeeds, law_reports_asked_in_order, writes};
use crate::report::{
    brightness_command, image_reports, keep_alive_command, law_image_survives, law_packet_frames,
    law_padding_is_zero, led_brightness_command, led_colors_command, mode_command, sleep_command,
};
use crate::types::DeviceInfoView;

verus! {

/// Packets have 512 bytes up to protocol version 1 and 1024 from version 2 on; there is no version
/// above 3.
pub proof fn law_packet_sizes(device: DeviceView)
    ensures
        device.wf() <==> device.protocol_version <= 3 && device.packet_size == (
        if device.protocol_version <= 1 {
            512nat
        } else {
            1024nat
        }),
{
}

/// A connected device has the ids and the counts that it was connected with. From protocol version
/// 2 on its serial number is the one that was reported; in version 1 it is always the same. A
/// device without a serial number gets version 0, any other the version asked for, and only one
/// of version 3 reports both states of an encoder. Nothing was sent to it yet.
pub proof fn law_connected_parts(
    info: DeviceInfoView,
    protocol_version: nat,
    key_count: nat,
    encoder_count: nat,
)
    requires
        1 <= protocol_version <= 3,
    ensures
        ({
            let device = connected_device(info, protocol_version, key_count, encoder_count);
            &&& device.vid == info.vendor_id
            &&& device.pid == info.product_id
            &&& protocol_version >= 2 && info.serial_number is Some ==> Some(device.serial_number)
                == info.serial_number
            &&& protocol_version == 1 ==> device.serial_number == "355499441494"@
            &&& info.serial_number is None ==> device.protocol_version == 0
            &&& info.serial_number is Some ==> device.protocol_version == protocol_version
            &&& device.supports_both_encoder_states == (info.serial_number is Some
                && protocol_version == 3)
            &&& device.key_count == key_count
            &&& device.encoder_count == encoder_count
            &&& protocol_version == 1 ==> device.packet_size == 512
            &&& protocol_version >= 2 ==> device.packet_size == 1024
            &&& device.images.len() == 0
            &&& !device.clear_waits
            &&& !device.initialized
        }),
{
}

/// From protocol version 2 on, devices that report different serial numbers have different ones,
/// whatever else is the same.
pub proof fn law_serial_numbers_told_apart(
    first: DeviceInfoView,
    second: DeviceInfoView,
    first_version: nat,
    second_version: nat,
    key_count: nat,
    encoder_count: nat,
)
    requires
        2 <= first_version <= 3,
        2 <= second_version <= 3,
        first.serial_number is Some,
        second.serial_number is Some,
    ensures
        connected_device(first, first_version, key_count, encoder_count).serial_number
            == connected_device(second, second_version, key_count, encoder_count).serial_number
            <==> first.serial_number == second.serial_number,
{
}

/// Beginning the initialization changes nothing of a device but that it counts as initialized.
pub proof fn law_awake_keeps(device: DeviceView)
    ensures
        device.awake().initialized,
        device.awake().vid == device.vid,
        device.awake().pid == device.pid,
        device.awake().serial_number == device.serial_number,
        device.awake().protocol_version == device.protocol_version,
        device.awake().supports_both_encoder_states == device.supports_both_encoder_states,
        device.awake().key_count == device.key_count,
        device.awake().encoder_count == device.encoder_count,
        device.awake().packet_size == device.packet_size,
        device.awake().images == device.images,
        device.awake().clear_waits == device.clear_waits,
{
}

/// A report has one byte more than a packet. It starts with the payload, as much of it as fits,
/// and the rest is zero.
pub proof fn law_report_bytes(device: DeviceView, payload: Seq<u8>)
    ensures
        device.report(payload).len() == device.packet_size + 1,
        forall|i: int|
            0 <= i <= device.packet_size ==> #[trigger] device.report(payload)[i] == (if i
                < payload.len() {
                payload[i]
            } else {
                0u8
            }),
{
}

/// The initialization is the report `DIS` and then the report `LIG` with zeros. It is written
/// exactly if it has not begun.
pub proof fn law_initialization_bytes(device: DeviceView)
    requires
        device.wf(),
    ensures
        device.initialized ==> device.initialize_reports().len() == 0,
        !device.initialized ==> {
            &&& device.initialize_reports().len() == 2
            &&& device.initialize_reports()[0] == seq![
                0x00u8, 0x43u8, 0x52u8, 0x54u8, 0x00u8, 0x00u8, 0x44u8, 0x49u8, 0x53u8,
            ] + Seq::new((device.packet_size - 8) as nat, |i: int| 0u8)
            &&& device.initialize_reports()[1] == seq![
                0x00u8, 0x43u8, 0x52u8, 0x54u8, 0x00u8, 0x00u8, 0x4cu8, 0x49u8, 0x47u8,
                0x00u8, 0x00u8, 0x00u8, 0x00u8,
            ] + Seq::new((device.packet_size - 12) as nat, |i: int| 0u8)
        },
{
    if !device.initialized {
        assert(device.initialize_reports()[0] =~= seq![
            0x00u8, 0x43u8, 0x52u8, 0x54u8, 0x00u8, 0x00u8, 0x44u8, 0x49u8, 0x53u8,
        ] + Seq::new((device.packet_size - 8) as nat, |i: int| 0u8));
        assert(device.initialize_reports()[1] =~= seq![
            0x00u8, 0x43u8, 0x52u8, 0x54u8, 0x00u8, 0x00u8, 0x4cu8, 0x49u8, 0x47u8, 0x00u8,
            0x00u8, 0x00u8, 0x00u8,
        ] + Seq::new((device.packet_size - 12) as nat, |i: int| 0u8));
    }
}

/// Setting the brightness writes `LIG` with the percentage in its last place, one hundred at most.
pub proof fn law_brightness_bytes(device: DeviceView, percent: u8)
    requires
        device.wf(),
    ensures
        ({
            let call = device.command_call(brightness_command(percent));
            let report = seq![
                0x00u8, 0x43u8, 0x52u8, 0x54u8, 0x00u8, 0x00u8, 0x4cu8, 0x49u8, 0x47u8,
                0x00u8, 0x00u8, (if percent < 100 { percent } else { 100u8 }),
            ] + Seq::new((device.packet_size - 11) as nat, |i: int| 0u8);
            &&& call.reports == device.initialize_reports() + seq![report]
            &&& call.written == 0
            &&& call.completion == Completion::Nothing
            &&& !call.failed
        }),
{
    let report = seq![
        0x00u8, 0x43u8, 0x52u8, 0x54u8, 0x00u8, 0x00u8, 0x4cu8, 0x49u8, 0x47u8, 0x00u8,
        0x00u8, (if percent < 100 { percent } else { 100u8 }),
    ] + Seq::new((device.packet_size - 11) as nat, |i: int| 0u8);
    let call = device.command_call(brightness_command(percent));
    assert(call.reports.last() =~= report);
    assert(call.reports =~= device.initialize_reports() + seq![report]);
}

/// Setting the brightness of the knob lights writes `LBLIG` with the percentage behind it, one
/// hundred at most.
pub proof fn law_led_brightness_bytes(device: DeviceView, percent: u8)
    requires
        device.wf(),
    ensures
        ({
            let call = device.command_call(led_brightness_command(percent));
            let report = seq![
                0x00u8, 0x43u8, 0x52u8, 0x54u8, 0x00u8, 0x00u8, 0x4cu8, 0x42u8, 0x4cu8,
                0x49u8, 0x47u8, (if percent < 100 { percent } else { 100u8 }),
            ] + Seq::new((device.packet_size - 11) as nat, |i: int| 0u8);
            &&& call.reports == device.initialize_reports() + seq![report]
            &&& call.written == 0
            &&& call.completion == Completion::Nothing
            &&& !call.failed
        }),
{
    let report = seq![
        0x00u8, 0x43u8, 0x52u8, 0x54u8, 0x00u8, 0x00u8, 0x4cu8, 0x42u8, 0x4cu8, 0x49u8,
        0x47u8, (if percent < 100 { percent } else { 100u8 }),
    ] + Seq::new((device.packet_size - 11) as nat, |i: int| 0u8);
    let call = device.command_call(led_brightness_command(percent));
    assert(call.reports.last() =~= report);
    assert(call.reports =~= device.initialize_reports() + seq![report]);
}

/// Putting the device to sleep writes `HAN`.
pub proof fn law_sleep_bytes(device: DeviceView)
    requires
        device.wf(),
    ensures
        ({
            let call = device.command_call(sleep_command());
            let report = seq![
                0x00u8, 0x43u8, 0x52u8, 0x54u8, 0x00u8, 0x00u8, 0x48u8, 0x41u8, 0x4eu8,
            ] + Seq::new((device.packet_size - 8) as nat, |i: int| 0u8);
            &&& call.reports == device.initialize_reports() + seq![report]
            &&& call.written == 0
            &&& call.completion == Completion::Nothing
            &&& !call.failed
        }),
{
    let report = seq![
        0x00u8, 0x43u8, 0x52u8, 0x54u8, 0x00u8, 0x00u8, 0x48u8, 0x41u8, 0x4eu8,
    ] + Seq::new((device.packet_size - 8) as nat, |i: int| 0u8);
    assert(device.command_call(sleep_command()).reports.last() =~= report);
    assert(device.command_call(sleep_command()).reports =~= device.initialize_reports() + seq![
        report,
    ]);
}

/// Keeping the device alive writes `CONNECT`.
pub proof fn law_keep_alive_bytes(device: DeviceView)
    requires
        device.wf(),
    ensures
        ({
            let call = device.command_call(keep_alive_command());
            let report = seq![
                0x00u8, 0x43u8, 0x52u8, 0x54u8, 0x00u8, 0x00u8, 0x43u8, 0x4fu8, 0x4eu8,
                0x4eu8, 0x45u8, 0x43u8, 0x54u8,
            ] + Seq::new((device.packet_size - 12) as nat, |i: int| 0u8);
            &&& call.reports == device.initialize_reports() + seq![report]
            &&& call.written == 0
            &&& call.completion == Completion::Nothing
            &&& !call.failed
        }),
{
    let report = seq![
        0x00u8, 0x43u8, 0x52u8, 0x54u8, 0x00u8, 0x00u8, 0x43u8, 0x4fu8, 0x4eu8, 0x4eu8,
        0x45u8, 0x43u8, 0x54u8,
    ] + Seq::new((device.packet_size - 12) as nat, |i: int| 0u8);
    assert(device.command_call(keep_alive_command()).reports.last() =~= report);
    assert(device.command_call(keep_alive_command()).reports =~= device.initialize_reports() + seq![
        report,
    ]);
}

/// Clearing a key writes `CLE` with the number of the key, counted from one, or with 0xff for all
/// keys, and leaves the clear waiting.
pub proof fn law_clear_bytes(device: DeviceView, key: u8)
    requires
        device.wf(),
    ensures
        ({
            let call = device.clear_call(key);
            let report = seq![
                0x00u8, 0x43u8, 0x52u8, 0x54u8, 0x00u8, 0x00u8, 0x43u8, 0x4cu8, 0x45u8,
                0x00u8, 0x00u8, 0x00u8,
                (if key == 0xff { 0xffu8 } else { (key + 1) as u8 }),
            ] + Seq::new((device.packet_size - 12) as nat, |i: int| 0u8);
            &&& call.reports == device.initialize_reports() + seq![report]
            &&& call.written == 0
            &&& call.completion == Completion::LeaveClear
            &&& !call.failed
        }),
{
    let report = seq![
        0x00u8, 0x43u8, 0x52u8, 0x54u8, 0x00u8, 0x00u8, 0x43u8, 0x4cu8, 0x45u8, 0x00u8,
        0x00u8, 0x00u8, (if key == 0xff { 0xffu8 } else { (key + 1) as u8 }),
    ] + Seq::new((device.packet_size - 12) as nat, |i: int| 0u8);
    assert(device.clear_call(key).reports.last() =~= report);
    assert(device.clear_call(key).reports =~= device.initialize_reports() + seq![report]);
}

/// Clearing different keys writes different reports, and clearing one key is not clearing all. The
/// key before the last is left out: its number, counted from one, is the name of all keys.
pub proof fn law_cleared_keys_told_apart(device: DeviceView, first: u8, second: u8)
    requires
        device.wf(),
        first < 0xfe,
        second < 0xfe,
    ensures
        device.clear_call(first).reports.last()[12] == first + 1,
        first != second ==> device.clear_call(first).reports.last() != device.clear_call(
            second,
        ).reports.last(),
        device.clear_call(first).reports.last() != device.clear_call(0xff).reports.last(),
        device.clear_call(0xff).reports.last()[12] == 0xff,
{
    law_clear_bytes(device, first);
    law_clear_bytes(device, second);
    law_clear_bytes(device, 0xff);
    assert(device.clear_call(first).reports.last()[12] == first + 1);
    assert(device.clear_call(second).reports.last()[12] == second + 1);
    assert(device.clear_call(0xff).reports.last()[12] == 0xff);
}

/// Setting the mode writes `MOD` with the mode counted from the digit zero, and nothing else.
pub proof fn law_mode_bytes(device: DeviceView, mode: u8)
    requires
        device.wf(),
        mode <= 0xcf,
    ensures
        device.report(mode_command(mode)) == seq![
            0x00u8, 0x43u8, 0x52u8, 0x54u8, 0x00u8, 0x00u8, 0x4du8, 0x4fu8, 0x44u8, 0x00u8,
            0x00u8, (48 + mode) as u8,
        ] + Seq::new((device.packet_size - 11) as nat, |i: int| 0u8),
{
    assert(device.report(mode_command(mode)) =~= seq![
        0x00u8, 0x43u8, 0x52u8, 0x54u8, 0x00u8, 0x00u8, 0x4du8, 0x4fu8, 0x44u8, 0x00u8,
        0x00u8, (48 + mode) as u8,
    ] + Seq::new((device.packet_size - 11) as nat, |i: int| 0u8));
}

/// Setting the colors of the knob lights writes `SETLB`, then red, green and blue of each light in
/// turn, as far as the report reaches, then zeros.
pub proof fn law_led_colors_bytes(device: DeviceView, colors: Seq<[u8; 3]>)
    requires
        device.wf(),
    ensures
        ({
            let call = device.command_call(led_colors_command(colors));
            let report = call.reports.last();
            &&& call.reports == device.initialize_reports() + seq![report]
            &&& call.written == 0
            &&& call.completion == Completion::Nothing
            &&& !call.failed
            &&& report.len() == device.packet_size + 1
            &&& report.take(11) == seq![
                0x00u8, 0x43u8, 0x52u8, 0x54u8, 0x00u8, 0x00u8, 0x53u8, 0x45u8, 0x54u8,
                0x4cu8, 0x42u8,
            ]
            &&& forall|light: int, part: int|
                0 <= light < colors.len() && 0 <= part < 3 && 11 + 3 * light + part
                    <= device.packet_size ==> report[11 + 3 * light + part]
                    == #[trigger] colors[light]@[part]
            &&& forall|i: int|
                11 + 3 * colors.len() <= i < report.len() ==> #[trigger] report[i] == 0
        }),
{
    let call = device.command_call(led_colors_command(colors));
    let report = call.reports.last();
    assert(call.reports =~= device.initialize_reports() + seq![report]);
    assert(report.take(11) =~= seq![
        0x00u8, 0x43u8, 0x52u8, 0x54u8, 0x00u8, 0x00u8, 0x53u8, 0x45u8, 0x54u8, 0x4cu8,
        0x42u8,
    ]);
    assert forall|light: int, part: int|
        0 <= light < colors.len() && 0 <= part < 3 && 11 + 3 * light + part
            <= device.packet_size implies report[11 + 3 * light + part]
        == #[trigger] colors[light]@[part] by {
        assert((3 * light + part) / 3 == light);
        assert((3 * light + part) % 3 == part);
    }
}

/// A reset writes the initialization where needed, full brightness, the clearing of all keys, and
/// from protocol version 2 on the commit.
pub proof fn law_reset_bytes(device: DeviceView)
    requires
        device.wf(),
    ensures
        ({
            let call = device.reset_call();
            let begun = device.initialize_reports().len() as int;
            &&& call.reports.len() == begun + (if device.protocol_version >= 2 {
                3int
            } else {
                2int
            })
            &&& call.reports.take(begun) == device.initialize_reports()
            &&& call.reports[begun] == seq![
                0x00u8, 0x43u8, 0x52u8, 0x54u8, 0x00u8, 0x00u8, 0x4cu8, 0x49u8, 0x47u8,
                0x00u8, 0x00u8, 100u8,
            ] + Seq::new((device.packet_size - 11) as nat, |i: int| 0u8)
            &&& call.reports[begun + 1] == seq![
                0x00u8, 0x43u8, 0x52u8, 0x54u8, 0x00u8, 0x00u8, 0x43u8, 0x4cu8, 0x45u8,
                0x00u8, 0x00u8, 0x00u8, 0xffu8,
            ] + Seq::new((device.packet_size - 12) as nat, |i: int| 0u8)
            &&& device.protocol_version >= 2 ==> call.reports[begun + 2] == seq![
                0x00u8, 0x43u8, 0x52u8, 0x54u8, 0x00u8, 0x00u8, 0x53u8, 0x54u8, 0x50u8,
            ] + Seq::new((device.packet_size - 8) as nat, |i: int| 0u8)
            &&& call.written == 0
            &&& call.completion == (Completion::Commit { count: 0 })
            &&& !call.failed
        }),
{
    let call = device.reset_call();
    let begun = device.initialize_reports().len() as int;
    assert(call.reports.take(begun) =~= device.initialize_reports());
    assert(call.reports[begun] =~= seq![
        0x00u8, 0x43u8, 0x52u8, 0x54u8, 0x00u8, 0x00u8, 0x4cu8, 0x49u8, 0x47u8, 0x00u8,
        0x00u8, 100u8,
    ] + Seq::new((device.packet_size - 11) as nat, |i: int| 0u8));
    assert(call.reports[begun + 1] =~= seq![
        0x00u8, 0x43u8, 0x52u8, 0x54u8, 0x00u8, 0x00u8, 0x43u8, 0x4cu8, 0x45u8, 0x00u8,
        0x00u8, 0x00u8, 0xffu8,
    ] + Seq::new((device.packet_size - 12) as nat, |i: int| 0u8));
    if device.protocol_version >= 2 {
        assert(call.reports[begun + 2] =~= seq![
            0x00u8, 0x43u8, 0x52u8, 0x54u8, 0x00u8, 0x00u8, 0x53u8, 0x54u8, 0x50u8,
        ] + Seq::new((device.packet_size - 8) as nat, |i: int| 0u8));
    }
}

/// A shutdown writes the initialization where needed, `CLE` with the letters `DC`, and `HAN`.
pub proof fn law_shutdown_bytes(device: DeviceView)
    requires
        device.wf(),
    ensures
        ({
            let call = device.shutdown_call();
            let goodbye = seq![
                0x00u8, 0x43u8, 0x52u8, 0x54u8, 0x00u8, 0x00u8, 0x43u8, 0x4cu8, 0x45u8,
                0x00u8, 0x00u8, 0x44u8, 0x43u8,
            ] + Seq::new((device.packet_size - 12) as nat, |i: int| 0u8);
            let sleep = seq![
                0x00u8, 0x43u8, 0x52u8, 0x54u8, 0x00u8, 0x00u8, 0x48u8, 0x41u8, 0x4eu8,
            ] + Seq::new((device.packet_size - 8) as nat, |i: int| 0u8);
            &&& call.reports == device.initialize_reports() + seq![goodbye, sleep]
            &&& call.written == 0
            &&& call.completion == Completion::Nothing
            &&& !call.failed
        }),
{
    let call = device.shutdown_call();
    let begun = device.initialize_reports().len() as int;
    let goodbye = seq![
        0x00u8, 0x43u8, 0x52u8, 0x54u8, 0x00u8, 0x00u8, 0x43u8, 0x4cu8, 0x45u8, 0x00u8,
        0x00u8, 0x44u8, 0x43u8,
    ] + Seq::new((device.packet_size - 12) as nat, |i: int| 0u8);
    let sleep = seq![
        0x00u8, 0x43u8, 0x52u8, 0x54u8, 0x00u8, 0x00u8, 0x48u8, 0x41u8, 0x4eu8,
    ] + Seq::new((device.packet_size - 8) as nat, |i: int| 0u8);
    assert(call.reports[begun] =~= goodbye);
    assert(call.reports[begun + 1] =~= sleep);
    assert(call.reports =~= device.initialize_reports() + seq![goodbye, sleep]);
}

/// A flush with nothing queued and no clear waiting writes the initialization where needed and
/// nothing else. Any other flush, whether the device is initialized or not, writes the
/// initialization where needed, then each queued image in order, and ends in `STP`.
pub proof fn law_flush_bytes(device: DeviceView)
    requires
        device.wf(),
        device.images.len() <= usize::MAX,
    ensures
        ({
            let call = device.flush_call();
            let commit = seq![
                0x00u8, 0x43u8, 0x52u8, 0x54u8, 0x00u8, 0x00u8, 0x53u8, 0x54u8, 0x50u8,
            ] + Seq::new((device.packet_size - 8) as nat, |i: int| 0u8);
            let begun = device.initialize_reports();
            let sent = send_all_reports(device.images, device.packet_size);
            &&& device.images.len() == 0 && !device.clear_waits ==> call.reports == begun
                && call.completion == Completion::Nothing
            &&& device.images.len() > 0 || device.clear_waits ==> {
                &&& call.reports == begun + sent + seq![commit]
                &&& call.reports.last() == commit
                &&& call.completion matches Completion::Commit { count } && count
                    == device.images.len()
            }
            &&& call.written == 0
            &&& !call.failed
        }),
{
    let call = device.flush_call();
    let commit = seq![
        0x00u8, 0x43u8, 0x52u8, 0x54u8, 0x00u8, 0x00u8, 0x53u8, 0x54u8, 0x50u8,
    ] + Seq::new((device.packet_size - 8) as nat, |i: int| 0u8);
    if device.images.len() > 0 || device.clear_waits {
        assert(call.reports.last() =~= commit);
        assert(call.reports =~= device.initialize_reports() + send_all_reports(
            device.images,
            device.packet_size,
        ) + seq![commit]);
    }
}

/// Until its last report is written, a flush keeps every queued image and a clear that waits, and
/// asks for its reports in order; the last one is `STP`. Once that is written, and not before, the
/// images are gone. All this holds whether the device was initialized before or not.
pub proof fn law_flush_keeps_until_commit(device: DeviceView, count: nat)
    requires
        device.wf(),
        device.images.len() <= usize::MAX,
        device.images.len() > 0 || device.clear_waits,
        count < device.flush_call().reports.len(),
    ensures
        ({
            let flush = device.flush_call();
            let total = flush.reports.len();
            let commit = seq![
                0x00u8, 0x43u8, 0x52u8, 0x54u8, 0x00u8, 0x00u8, 0x53u8, 0x54u8, 0x50u8,
            ] + Seq::new((device.packet_size - 8) as nat, |i: int| 0u8);
            let (now, call) = device.awake().resumed_all(flush, writes(count));
            let (after, done) = device.awake().resumed_all(flush, writes(total));
            &&& now.images == device.images
            &&& now.clear_waits == device.clear_waits
            &&& call.request() == RequestView::Write(flush.reports[count as int])
            &&& count + 1 == total ==> call.request() == RequestView::Write(commit)
            &&& after.images.len() == 0
            &&& !after.clear_waits
            &&& done.request() is Finished
        }),
{
    let flush = device.flush_call();
    law_flush_bytes(device);
    law_flush_succeeds(device);
    law_reports_asked_in_order(device.awake(), flush.reports, flush.completion, count);
}

/// Committing `count` images drops the first `count` of the queue and keeps the others in order.
pub proof fn law_without_first(images: Seq<ImageView>, count: usize)
    ensures
        count >= images.len() ==> without_first(images, count).len() == 0,
        count <= images.len() ==> without_first(images, count).len() == images.len() - count,
        forall|i: int|
            0 <= i < images.len() - count ==> #[trigger] without_first(images, count)[i] == images[i
                + count],
{
}

/// No image is sent for an empty queue, one image is sent by its own reports, and each further
/// image is sent after those before it.
pub proof fn law_send_all_bytes(images: Seq<ImageView>, image: ImageView, packet_size: nat)
    ensures
        send_all_reports(Seq::empty(), packet_size).len() == 0,
        send_all_reports(images.push(image), packet_size) == send_all_reports(images, packet_size)
            + send_reports(image, packet_size),
{
    assert(images.push(image).drop_last() =~= images);
}

/// An image is sent as `BAT` with the low sixteen bits of its length, high byte first, and the
/// number of its key, counted from one; then as many packets as the image fills, the last maybe
/// in part. Each packet is a report that starts with 0 and carries the image's bytes in order,
/// and zeros behind the image's end.
pub proof fn law_send_bytes(device: DeviceView, image: ImageView)
    requires
        device.wf(),
        image.key < 0xff,
    ensures
        ({
            let size = device.packet_size as int;
            let len = image.data.len() as int;
            let sent = send_reports(image, device.packet_size);
            let packets = sent.len() - 1;
            &&& sent.len() >= 1
            &&& sent[0] == seq![
                0x00u8, 0x43u8, 0x52u8, 0x54u8, 0x00u8, 0x00u8, 0x42u8, 0x41u8, 0x54u8,
                0x00u8, 0x00u8, ((image.data.len() / 256) % 256) as u8,
                (image.data.len() % 256) as u8, (image.key + 1) as u8,
            ] + Seq::new((device.packet_size - 13) as nat, |i: int| 0u8)
            &&& (packets - 1) * size < len <= packets * size
            &&& forall|page: int|
                1 <= page < sent.len() ==> (#[trigger] sent[page]).len() == size + 1
                    && sent[page][0] == 0
            &&& forall|i: int|
                0 <= i < len ==> sent[1 + i / size][1 + i % size] == #[trigger] image.data[i]
            &&& forall|page: int, offset: int|
                0 <= page < packets && 0 <= offset < size && page * size + offset >= len
                    ==> #[trigger] sent[1 + page][1 + offset] == 0
        }),
{
    let size = device.packet_size as int;
    let len = image.data.len() as int;
    let sent = send_reports(image, device.packet_size);
    let packets = image_reports(image.data, device.packet_size);
    assert(sent[0] =~= seq![
        0x00u8, 0x43u8, 0x52u8, 0x54u8, 0x00u8, 0x00u8, 0x42u8, 0x41u8, 0x54u8, 0x00u8,
        0x00u8, ((image.data.len() / 256) % 256) as u8, (image.data.len() % 256) as u8,
        (image.key + 1) as u8,
    ] + Seq::new((device.packet_size - 13) as nat, |i: int| 0u8));
    assert(forall|page: int| 0 <= page < packets.len() ==> sent[1 + page] == packets[page]);
    law_packet_frames(image.data, device.packet_size);
    assert forall|page: int| 1 <= page < sent.len() implies (#[trigger] sent[page]).len() == size
        + 1 && sent[page][0] == 0 by {
        assert(sent[page] == packets[page - 1]);
    }
    assert forall|i: int| 0 <= i < len implies sent[1 + i / size][1 + i % size]
        == #[trigger] image.data[i] by {
        law_image_survives(image.data, device.packet_size, i);
    }
    assert forall|page: int, offset: int|
        0 <= page < packets.len() && 0 <= offset < size && page * size + offset
            >= len implies #[trigger] sent[1 + page][1 + offset] == 0 by {
        law_padding_is_zero(image.data, device.packet_size, page, offset);
        assert(sent[1 + page] == packets[page]);
    }
}

/// A queue can be flushed exactly if no image in it is for key 255.
pub proof fn law_can_flush(device: DeviceView)
    ensures
        device.can_flush() <==> forall|i: int|
            0 <= i < device.images.len() ==> (#[trigger] device.images[i]).key != 255,
{
}

} // verus!
