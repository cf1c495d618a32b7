//! A device and the calls on it.

use vstd::prelude::*;

use crate::call::{started, writing, Call, CallView, Completion, Reply, ReplyView, RequestView};
use crate::error::MirajazzError;
use crate::report::{
    brightness_command, clear_command, commit_command, dark_command, display_command,
    extend_payload, extended, goodbye_command, image_command, image_reports, keep_alive_command,
    led_brightness_command, led_colors_command, mode_command, push_image_reports, push_report,
    report_bytes, sleep_command,
};
use crate::state::{released, DeviceState, DeviceStateReader};
use crate::types::{DeviceInfo, DeviceInfoView};

verus! {

/// An image that waits to be sent.
struct ImageCache {
    key: u8,
    image_data: Vec<u8>,
}

/// The contents of an image that waits to be sent.
#[verifier::ext_equal]
pub struct ImageView {
    pub key: u8,
    pub data: Seq<u8>,
}

/// A device: its identity, how it is talked to, and what is still to be sent to it.
pub struct Device {
    /// Vendor ID of the device
    pub vid: u16,
    /// Product ID of the device
    pub pid: u16,
    /// Serial number
    pub serial_number: String,
    /// Protocol version
    protocol_version: usize,
    /// Whether the device is capable of reporting EncoderUp
    supports_both_encoder_states: bool,
    /// Number of keys
    key_count: usize,
    /// Number of encoders
    encoder_count: usize,
    /// Packet size
    packet_size: usize,
    /// Images that wait to be sent
    image_cache: Vec<ImageCache>,
    /// Whether a clear was sent that no commit has made visible yet
    clear_waits: bool,
    /// Whether the device was initialized, or the attempt was made
    initialized: bool,
}

/// The contents of a [`Device`].
#[verifier::ext_equal]
pub struct DeviceView {
    pub vid: u16,
    pub pid: u16,
    pub serial_number: Seq<char>,
    pub protocol_version: nat,
    pub supports_both_encoder_states: bool,
    pub key_count: nat,
    pub encoder_count: nat,
    pub packet_size: nat,
    pub images: Seq<ImageView>,
    pub clear_waits: bool,
    pub initialized: bool,
}

/// The size of the packets that a protocol version uses.
pub open spec fn packet_size_of(protocol_version: nat) -> nat {
    if protocol_version >= 2 {
        1024
    } else {
        512
    }
}

/// The reports that send one image.
pub open spec fn send_reports(image: ImageView, packet_size: nat) -> Seq<Seq<u8>> {
    seq![extended(image_command(image.data.len(), image.key), packet_size + 1)] + image_reports(
        image.data,
        packet_size,
    )
}

/// The reports that send several images, one after the other.
pub open spec fn send_all_reports(images: Seq<ImageView>, packet_size: nat) -> Seq<Seq<u8>>
    decreases images.len(),
{
    if images.len() == 0 {
        Seq::empty()
    } else {
        send_all_reports(images.drop_last(), packet_size) + send_reports(
            images.last(),
            packet_size,
        )
    }
}

/// `images` without the first `count` of them.
pub open spec fn without_first(images: Seq<ImageView>, count: usize) -> Seq<ImageView> {
    if count <= images.len() {
        images.skip(count as int)
    } else {
        Seq::empty()
    }
}

impl DeviceView {
    /// What holds of every device: its protocol version is known, and its packets have the size
    /// that goes with it.
    pub open spec fn wf(self) -> bool {
        &&& self.protocol_version <= 3
        &&& self.packet_size == packet_size_of(self.protocol_version)
    }

    /// The device once its initialization has begun.
    pub open spec fn awake(self) -> DeviceView {
        DeviceView { initialized: true, ..self }
    }

    /// The report that carries `payload`: one byte more than a packet, zero-filled or cut.
    pub open spec fn report(self, payload: Seq<u8>) -> Seq<u8> {
        extended(payload, self.packet_size + 1)
    }

    /// The reports that initialize the device, where that has not begun yet.
    pub open spec fn initialize_reports(self) -> Seq<Seq<u8>> {
        if self.initialized {
            Seq::empty()
        } else {
            seq![self.report(display_command()), self.report(dark_command())]
        }
    }

    /// The call that initializes the device where needed and then writes one command.
    pub open spec fn command_call(self, command: Seq<u8>) -> CallView {
        writing(self.initialize_reports().push(self.report(command)))
    }

    /// The call that clears a key, or all of them. The clear then waits to be committed.
    pub open spec fn clear_call(self, key: u8) -> CallView {
        started(
            self.initialize_reports().push(self.report(clear_command(key))),
            Completion::LeaveClear,
        )
    }

    /// The reports with which a reset clears all keys. From protocol version 2 on it commits the
    /// clear itself.
    pub open spec fn reset_clear_reports(self) -> Seq<Seq<u8>> {
        if self.protocol_version >= 2 {
            seq![self.report(clear_command(0xff)), self.report(commit_command())]
        } else {
            seq![self.report(clear_command(0xff))]
        }
    }

    /// The call that sets full brightness and clears all keys, after which no clear waits.
    pub open spec fn reset_call(self) -> CallView {
        started(
            self.initialize_reports().push(self.report(brightness_command(100)))
                + self.reset_clear_reports(),
            Completion::Commit { count: 0 },
        )
    }

    /// The call that announces that the host goes away and puts the device to sleep.
    pub open spec fn shutdown_call(self) -> CallView {
        writing(
            self.initialize_reports().push(self.report(goodbye_command())).push(
                self.report(sleep_command()),
            ),
        )
    }

    /// The call that sends the queued images and commits them and a clear that waits. It forgets
    /// both then, but not images that are queued meanwhile. Where no image is queued and no clear
    /// waits, there is nothing to commit.
    pub open spec fn flush_call(self) -> CallView {
        if self.images.len() == 0 && !self.clear_waits {
            writing(self.initialize_reports())
        } else {
            started(
                (self.initialize_reports() + send_all_reports(self.images, self.packet_size)).push(
                    self.report(commit_command()),
                ),
                Completion::Commit { count: self.images.len() as usize },
            )
        }
    }

    /// Whether every queued image has a key that can be named to the device, where keys count
    /// from one.
    pub open spec fn can_flush(self) -> bool {
        forall|i: int| 0 <= i < self.images.len() ==> (#[trigger] self.images[i]).key < 0xff
    }

    /// The device after the effect of a call whose last report is written.
    pub open spec fn affected(self, effect: Completion) -> DeviceView {
        match effect {
            Completion::Commit { count } => DeviceView {
                images: without_first(self.images, count),
                clear_waits: false,
                ..self
            },
            Completion::LeaveClear => DeviceView { clear_waits: true, ..self },
            _ => self,
        }
    }

    /// The device and a call on it after the call has got a reply. A reply that does not answer
    /// what the call asked for changes nothing.
    pub open spec fn resumed(self, call: CallView, reply: ReplyView) -> (DeviceView, CallView) {
        match (call.request(), reply) {
            (RequestView::Write(_), ReplyView::Written) => (
                self.affected(call.effect()),
                call.after_write(),
            ),
            (RequestView::Convert, ReplyView::Converted(data)) => (
                DeviceView {
                    images: self.images.push(ImageView { key: call.completion->key, data }),
                    ..self
                },
                CallView { completion: Completion::Nothing, ..call },
            ),
            (RequestView::Write(_), ReplyView::Failed) => (self, CallView { failed: true, ..call }),
            (RequestView::Convert, ReplyView::Failed) => (self, CallView { failed: true, ..call }),
            _ => (self, call),
        }
    }
}

/// The device that `connect` makes of the description that it found.
pub open spec fn connected_device(
    info: DeviceInfoView,
    protocol_version: nat,
    key_count: nat,
    encoder_count: nat,
) -> DeviceView {
    let used_version = if info.serial_number is None {
        0
    } else {
        protocol_version
    };
    DeviceView {
        vid: info.vendor_id,
        pid: info.product_id,
        serial_number: if protocol_version == 1 {
            "355499441494"@
        } else {
            info.serial_number->0
        },
        protocol_version: used_version,
        supports_both_encoder_states: used_version > 2,
        key_count,
        encoder_count,
        packet_size: packet_size_of(protocol_version),
        images: Seq::empty(),
        clear_waits: false,
        initialized: false,
    }
}

impl View for Device {
    type V = DeviceView;

    closed spec fn view(&self) -> DeviceView {
        DeviceView {
            vid: self.vid,
            pid: self.pid,
            serial_number: self.serial_number@,
            protocol_version: self.protocol_version as nat,
            supports_both_encoder_states: self.supports_both_encoder_states,
            key_count: self.key_count as nat,
            encoder_count: self.encoder_count as nat,
            packet_size: self.packet_size as nat,
            images: image_views(self.image_cache@),
            clear_waits: self.clear_waits,
            initialized: self.initialized,
        }
    }
}

/// How a queued image is seen.
spec fn image_views(images: Seq<ImageCache>) -> Seq<ImageView> {
    images.map_values(|image: ImageCache| ImageView { key: image.key, data: image.image_data@ })
}

/// The contents of a device are its fields, and those of the queue are the images in it in turn.
proof fn law_device_parts(device: Device)
    ensures
        device@.vid == device.vid,
        device@.pid == device.pid,
        device@.serial_number == device.serial_number@,
        device@.protocol_version == device.protocol_version,
        device@.supports_both_encoder_states == device.supports_both_encoder_states,
        device@.key_count == device.key_count,
        device@.encoder_count == device.encoder_count,
        device@.packet_size == device.packet_size,
        device@.clear_waits == device.clear_waits,
        device@.initialized == device.initialized,
        device@.images.len() == device.image_cache@.len(),
        forall|i: int|
            0 <= i < device.image_cache@.len() ==> (#[trigger] device@.images[i]).key
                == device.image_cache@[i].key && device@.images[i].data
                == device.image_cache@[i].image_data@,
{
}

impl Device {
    /// Makes a device of what the host found behind an id, of which the last description counts.
    ///
    /// A device of protocol version 1 always gets the same serial number, because some have none
    /// and some hosts get it wrong; a device of that version that reports none is taken for one
    /// of protocol version 0, which can only be chosen in this way. Devices of later versions
    /// must report a serial number.
    pub fn connect(
        found: &[DeviceInfo],
        protocol_version: usize,
        key_count: usize,
        encoder_count: usize,
    ) -> (res: Result<Device, MirajazzError>)
        requires
            1 <= protocol_version <= 3,
        ensures
            res matches Err(MirajazzError::DeviceNotFoundError) <==> found@.len() == 0,
            res matches Err(MirajazzError::InvalidDeviceError) <==> found@.len() > 0
                && protocol_version != 1 && found@.last()@.serial_number is None,
            res is Ok <==> found@.len() > 0 && (protocol_version == 1
                || found@.last()@.serial_number is Some),
            res matches Ok(device) ==> device@ == connected_device(
                found@.last()@,
                protocol_version as nat,
                key_count as nat,
                encoder_count as nat,
            ) && device@.wf(),
            res matches Ok(device) ==> protocol_version >= 2 ==> found@.last().serial_number is Some
                && device@.serial_number == found@.last().serial_number->0@,
    {
        if found.len() == 0 {
            return Err(MirajazzError::DeviceNotFoundError);
        }
        let info: &DeviceInfo = &found[found.len() - 1];
        let serial_number: String = if protocol_version == 1 {
            "355499441494".to_owned()
        } else {
            match &info.serial_number {
                Some(serial_number) => serial_number.clone(),
                None => return Err(MirajazzError::InvalidDeviceError),
            }
        };
        let used_version: usize = if info.serial_number.is_none() {
            0
        } else {
            protocol_version
        };
        let device = Device {
            vid: info.vendor_id,
            pid: info.product_id,
            serial_number,
            protocol_version: used_version,
            supports_both_encoder_states: used_version > 2,
            key_count,
            encoder_count,
            packet_size: if protocol_version >= 2 {
                1024
            } else {
                512
            },
            image_cache: Vec::new(),
            clear_waits: false,
            initialized: false,
        };
        assert(device@ =~= connected_device(
            info@,
            protocol_version as nat,
            key_count as nat,
            encoder_count as nat,
        ));
        Ok(device)
    }

    /// The same device, with the ability to report both states of an encoder set as given.
    pub fn with_supports_both_encoder_states(self, supports: bool) -> (device: Self)
        ensures
            device@ == (DeviceView { supports_both_encoder_states: supports, ..self@ }),
    {
        let mut device = self;
        device.supports_both_encoder_states = supports;
        device
    }

    /// Returns key count
    pub fn key_count(&self) -> (count: usize)
        ensures
            count == self@.key_count,
    {
        self.key_count
    }

    /// Returns encoder count
    pub fn encoder_count(&self) -> (count: usize)
        ensures
            count == self@.encoder_count,
    {
        self.encoder_count
    }

    /// Returns serial number of the device
    pub fn serial_number(&self) -> (serial_number: &String)
        ensures
            serial_number@ == self@.serial_number,
    {
        &self.serial_number
    }

    /// Returns whether the device reports both states of an encoder
    pub fn supports_both_encoder_states(&self) -> (supports: bool)
        ensures
            supports == self@.supports_both_encoder_states,
    {
        self.supports_both_encoder_states
    }

    /// Appends the report that carries a command.
    fn push_command(&self, reports: &mut Vec<Vec<u8>>, command: Vec<u8>)
        requires
            self@.wf(),
        ensures
            report_bytes(final(reports)@) == report_bytes(old(reports)@).push(
                self@.report(command@),
            ),
    {
        let mut report: Vec<u8> = command;
        extend_payload(&mut report, self.packet_size);
        push_report(reports, report);
    }

    /// Marks the device as initialized, and gives the reports that initialize it where that had
    /// not begun yet.
    fn initialize(&mut self) -> (reports: Vec<Vec<u8>>)
        requires
            old(self)@.wf(),
        ensures
            final(self)@ == old(self)@.awake(),
            report_bytes(reports@) == old(self)@.initialize_reports(),
    {
        let mut reports: Vec<Vec<u8>> = Vec::new();
        if self.initialized {
            assert(report_bytes(reports@) =~= self@.initialize_reports());
            return reports;
        }
        self.initialized = true;
        let display: Vec<u8> = vec![0x00, 0x43, 0x52, 0x54, 0x00, 0x00, 0x44, 0x49, 0x53];
        assert(display@ =~= display_command());
        self.push_command(&mut reports, display);
        let dark: Vec<u8> = vec![
            0x00, 0x43, 0x52, 0x54, 0x00, 0x00, 0x4c, 0x49, 0x47, 0x00, 0x00, 0x00, 0x00,
        ];
        assert(dark@ =~= dark_command());
        self.push_command(&mut reports, dark);
        assert(report_bytes(reports@) =~= old(self)@.initialize_reports());
        reports
    }

    /// Initializes the device where needed, writes one command and is then completed as given.
    fn command_call(&mut self, command: Vec<u8>, completion: Completion) -> (call: Call)
        requires
            old(self)@.wf(),
        ensures
            final(self)@ == old(self)@.awake(),
            call@ == started(
                old(self)@.initialize_reports().push(old(self)@.report(command@)),
                completion,
            ),
    {
        let mut reports: Vec<Vec<u8>> = self.initialize();
        self.push_command(&mut reports, command);
        Call::start(reports, completion)
    }

    /// Resets the device
    ///
    /// The brightness is set to one hundred percent and all keys are cleared. No flush is needed.
    pub fn reset(&mut self) -> (call: Call)
        requires
            old(self)@.wf(),
        ensures
            final(self)@ == old(self)@.awake(),
            call@ == old(self)@.reset_call(),
            ({
                let begun = old(self)@.initialize_reports().len() as int;
                &&& call@.reports[begun][11] == 100
                &&& call@.reports[begun + 1][12] == 0xff
            }),
    {
        let mut reports: Vec<Vec<u8>> = self.initialize();
        let brightness: Vec<u8> = vec![
            0x00, 0x43, 0x52, 0x54, 0x00, 0x00, 0x4c, 0x49, 0x47, 0x00, 0x00, 100,
        ];
        assert(brightness@ =~= brightness_command(100));
        self.push_command(&mut reports, brightness);
        let clear: Vec<u8> = vec![
            0x00, 0x43, 0x52, 0x54, 0x00, 0x00, 0x43, 0x4c, 0x45, 0x00, 0x00, 0x00, 0xff,
        ];
        assert(clear@ =~= clear_command(0xff));
        self.push_command(&mut reports, clear);
        if self.protocol_version >= 2 {
            self.push_commit(&mut reports);
        }
        assert(report_bytes(reports@) =~= old(self)@.reset_call().reports);
        Call::start(reports, Completion::Commit { count: 0 })
    }

    /// Sets brightness of the device, value range is 0 - 100
    pub fn set_brightness(&mut self, percent: u8) -> (call: Call)
        requires
            old(self)@.wf(),
        ensures
            final(self)@ == old(self)@.awake(),
            call@ == old(self)@.command_call(brightness_command(percent)),
            call@.reports.last()[11] == (if percent <= 100 {
                percent
            } else {
                100
            }),
    {
        let clamped: u8 = if percent > 100 {
            100
        } else {
            percent
        };
        let command: Vec<u8> = vec![
            0x00, 0x43, 0x52, 0x54, 0x00, 0x00, 0x4c, 0x49, 0x47, 0x00, 0x00, clamped,
        ];
        assert(command@ =~= brightness_command(percent));
        self.command_call(command, Completion::Nothing)
    }

    /// Sets brightness of the knob LEDs, value range is 0 - 100
    pub fn set_led_brightness(&mut self, percent: u8) -> (call: Call)
        requires
            old(self)@.wf(),
        ensures
            final(self)@ == old(self)@.awake(),
            call@ == old(self)@.command_call(led_brightness_command(percent)),
            call@.reports.last()[11] == (if percent <= 100 {
                percent
            } else {
                100
            }),
    {
        let clamped: u8 = if percent > 100 {
            100
        } else {
            percent
        };
        let command: Vec<u8> = vec![
            0x00, 0x43, 0x52, 0x54, 0x00, 0x00, 0x4c, 0x42, 0x4c, 0x49, 0x47, clamped,
        ];
        assert(command@ =~= led_brightness_command(percent));
        self.command_call(command, Completion::Nothing)
    }

    /// Sets the color of each knob LED individually.
    /// `colors` must contain exactly one `[r, g, b]` entry per LED.
    ///
    /// Colors that do not fit into one report are cut off.
    pub fn set_led_colors(&mut self, colors: &[[u8; 3]]) -> (call: Call)
        requires
            old(self)@.wf(),
        ensures
            final(self)@ == old(self)@.awake(),
            call@ == old(self)@.command_call(led_colors_command(colors@)),
    {
        let mut command: Vec<u8> = vec![
            0x00, 0x43, 0x52, 0x54, 0x00, 0x00, 0x53, 0x45, 0x54, 0x4c, 0x42,
        ];
        let mut i: usize = 0;
        assert(command@ =~= led_colors_command(colors@.take(0)));
        while i < colors.len()
            invariant
                i <= colors.len(),
                command@ == led_colors_command(colors@.take(i as int)),
            decreases colors.len() - i,
        {
            let color: [u8; 3] = colors[i];
            command.push(color[0]);
            command.push(color[1]);
            command.push(color[2]);
            i += 1;
            assert(command@ =~= led_colors_command(colors@.take(i as int)));
        }
        assert(colors@.take(i as int) =~= colors@);
        self.command_call(command, Completion::Nothing)
    }

    /// Appends the reports that send an image to a key.
    fn send_image(&self, reports: &mut Vec<Vec<u8>>, key: u8, image_data: &[u8])
        requires
            self@.wf(),
            key < 0xff,
        ensures
            report_bytes(final(reports)@) == report_bytes(old(reports)@) + send_reports(
                ImageView { key, data: image_data@ },
                self@.packet_size,
            ),
    {
        let len: usize = image_data.len();
        proof {
            assert((len >> 8) as u8 == (len / 256) % 256) by (bit_vector);
            assert(len as u8 == len % 256) by (bit_vector);
        }
        let header: Vec<u8> = vec![
            0x00,
            0x43,
            0x52,
            0x54,
            0x00,
            0x00,
            0x42,
            0x41,
            0x54,
            0x00,
            0x00,
            (len >> 8) as u8,
            len as u8,
            key + 1,
        ];
        assert(header@ =~= image_command(image_data@.len(), key));
        self.push_command(reports, header);
        self.write_image_data_reports(reports, image_data);
        assert(report_bytes(reports@) =~= report_bytes(old(reports)@) + send_reports(
            ImageView { key, data: image_data@ },
            self@.packet_size,
        ));
    }

    /// Writes image data to device, changes must be flushed with [Device::flush] before
    /// they will appear on the device!
    pub fn write_image(&mut self, key: u8, image_data: &[u8]) -> (res: Result<(), MirajazzError>)
        ensures
            res is Ok,
            final(self)@ == (DeviceView {
                images: old(self)@.images.push(ImageView { key, data: image_data@ }),
                ..old(self)@
            }),
    {
        let image = ImageCache { key, image_data: vstd::slice::slice_to_vec(image_data) };
        self.image_cache.push(image);
        assert(self@.images =~= old(self)@.images.push(ImageView { key, data: image_data@ }));
        Ok(())
    }

    /// Sets button's image to blank, changes must be flushed with [Device::flush] before
    /// they will appear on the device!
    pub fn clear_button_image(&mut self, key: u8) -> (call: Call)
        requires
            old(self)@.wf(),
        ensures
            final(self)@ == old(self)@.awake(),
            call@ == old(self)@.clear_call(key),
            key < 0xff ==> call@.reports.last()[12] == key + 1,
            key == 0xff ==> call@.reports.last()[12] == 0xff,
    {
        let command: Vec<u8> = vec![
            0x00,
            0x43,
            0x52,
            0x54,
            0x00,
            0x00,
            0x43,
            0x4c,
            0x45,
            0x00,
            0x00,
            0x00,
            if key == 0xff {
                0xff
            } else {
                key + 1
            },
        ];
        assert(command@ =~= clear_command(key));
        self.command_call(command, Completion::LeaveClear)
    }

    /// Appends the report that makes what was sent before it visible.
    fn push_commit(&self, reports: &mut Vec<Vec<u8>>)
        requires
            self@.wf(),
        ensures
            report_bytes(final(reports)@) == report_bytes(old(reports)@).push(
                self@.report(commit_command()),
            ),
    {
        let commit: Vec<u8> = vec![0x00, 0x43, 0x52, 0x54, 0x00, 0x00, 0x53, 0x54, 0x50];
        assert(commit@ =~= commit_command());
        self.push_command(reports, commit);
    }

    /// Sets blank images to every button, changes must be flushed with [Device::flush] before
    /// they will appear on the device!
    pub fn clear_all_button_images(&mut self) -> (call: Call)
        requires
            old(self)@.wf(),
        ensures
            final(self)@ == old(self)@.awake(),
            call@ == old(self)@.clear_call(0xff),
            call@.reports.last()[12] == 0xff,
    {
        self.clear_button_image(0xff)
    }

    /// Sets specified button's image, changes must be flushed with [Device::flush] before
    /// they will appear on the device!
    ///
    /// Once the device is initialized, the call asks for the image in the form that the device
    /// takes, and queues it.
    pub fn set_button_image(&mut self, key: u8) -> (call: Call)
        requires
            old(self)@.wf(),
        ensures
            final(self)@ == old(self)@.awake(),
            call@ == started(old(self)@.initialize_reports(), Completion::StoreImage { key }),
    {
        let reports: Vec<Vec<u8>> = self.initialize();
        Call::start(reports, Completion::StoreImage { key })
    }

    /// Puts device to sleep
    pub fn sleep(&mut self) -> (call: Call)
        requires
            old(self)@.wf(),
        ensures
            final(self)@ == old(self)@.awake(),
            call@ == old(self)@.command_call(sleep_command()),
    {
        let command: Vec<u8> = vec![0x00, 0x43, 0x52, 0x54, 0x00, 0x00, 0x48, 0x41, 0x4e];
        assert(command@ =~= sleep_command());
        self.command_call(command, Completion::Nothing)
    }

    /// Make periodic events to the device, to keep it alive
    pub fn keep_alive(&mut self) -> (call: Call)
        requires
            old(self)@.wf(),
        ensures
            final(self)@ == old(self)@.awake(),
            call@ == old(self)@.command_call(keep_alive_command()),
    {
        let command: Vec<u8> = vec![
            0x00, 0x43, 0x52, 0x54, 0x00, 0x00, 0x43, 0x4f, 0x4e, 0x4e, 0x45, 0x43, 0x54,
        ];
        assert(command@ =~= keep_alive_command());
        self.command_call(command, Completion::Nothing)
    }

    /// Shutdown the device
    pub fn shutdown(&mut self) -> (call: Call)
        requires
            old(self)@.wf(),
        ensures
            final(self)@ == old(self)@.awake(),
            call@ == old(self)@.shutdown_call(),
    {
        let mut reports: Vec<Vec<u8>> = self.initialize();
        let goodbye: Vec<u8> = vec![
            0x00, 0x43, 0x52, 0x54, 0x00, 0x00, 0x43, 0x4c, 0x45, 0x00, 0x00, 0x44, 0x43,
        ];
        assert(goodbye@ =~= goodbye_command());
        self.push_command(&mut reports, goodbye);
        let sleep: Vec<u8> = vec![0x00, 0x43, 0x52, 0x54, 0x00, 0x00, 0x48, 0x41, 0x4e];
        assert(sleep@ =~= sleep_command());
        self.push_command(&mut reports, sleep);
        Call::start(reports, Completion::Nothing)
    }

    /// Whether every queued image has a key that [Device::flush] can send.
    pub fn can_flush(&self) -> (possible: bool)
        ensures
            possible == self@.can_flush(),
            self@.images.len() <= usize::MAX,
    {
        let count: usize = self.image_cache.len();
        assert(self@.images.len() == count);
        let mut i: usize = 0;
        while i < self.image_cache.len()
            invariant
                i <= self.image_cache.len(),
                forall|j: int| 0 <= j < i ==> (#[trigger] self@.images[j]).key < 0xff,
            decreases self.image_cache.len() - i,
        {
            assert(self@.images[i as int].key == self.image_cache@[i as int].key);
            if self.image_cache[i].key == 0xff {
                return false;
            }
            i += 1;
        }
        true
    }

    /// Flushes written images and cleared buttons, updating displays
    ///
    /// The images stay queued, and a clear stays waiting, until the last report is written. A
    /// clear that is written while the flush is under way counts as committed by it, so clears
    /// and flushes are to be made one after the other.
    pub fn flush(&mut self) -> (call: Call)
        requires
            old(self)@.wf(),
            old(self)@.can_flush(),
        ensures
            final(self)@ == old(self)@.awake(),
            call@ == old(self)@.flush_call(),
            old(self)@.images.len() > 0 || old(self)@.clear_waits ==> call@.reports.last().take(9)
                == seq![0x00u8, 0x43u8, 0x52u8, 0x54u8, 0x00u8, 0x00u8, 0x53u8, 0x54u8, 0x50u8],
    {
        let mut reports: Vec<Vec<u8>> = self.initialize();
        if self.image_cache.len() == 0 && !self.clear_waits {
            return Call::start(reports, Completion::Nothing);
        }
        let ghost images = self@.images;
        let ghost start = report_bytes(reports@);
        let mut i: usize = 0;
        assert(start =~= start + send_all_reports(images.take(0), self@.packet_size));
        while i < self.image_cache.len()
            invariant
                i <= self.image_cache.len(),
                self@.wf(),
                self@.can_flush(),
                images == self@.images,
                report_bytes(reports@) == start + send_all_reports(
                    images.take(i as int),
                    self@.packet_size,
                ),
            decreases self.image_cache.len() - i,
        {
            let image: &ImageCache = &self.image_cache[i];
            assert(images[i as int] == ImageView { key: image.key, data: image.image_data@ });
            self.send_image(&mut reports, image.key, image.image_data.as_slice());
            i += 1;
            assert(images.take(i as int).drop_last() =~= images.take(i - 1));
            assert(images.take(i as int).last() == images[i - 1]);
            assert(report_bytes(reports@) =~= start + send_all_reports(
                images.take(i as int),
                self@.packet_size,
            ));
        }
        assert(images.take(i as int) =~= images);
        self.push_commit(&mut reports);
        assert(report_bytes(reports@).last().take(9) =~= seq![
            0x00u8, 0x43u8, 0x52u8, 0x54u8, 0x00u8, 0x00u8, 0x53u8, 0x54u8, 0x50u8,
        ]);
        Call::start(reports, Completion::Commit { count: i })
    }

    /// Returns button state reader for this device
    pub fn get_reader(&self) -> (reader: DeviceStateReader)
        requires
            self@.key_count <= isize::MAX,
            self@.encoder_count <= isize::MAX,
        ensures
            reader.protocol_version == self@.protocol_version,
            reader.supports_both_encoder_states == self@.supports_both_encoder_states,
            reader.states.buttons@ == released(self@.key_count),
            reader.states.encoders@ == released(self@.encoder_count),
    {
        DeviceStateReader {
            protocol_version: self.protocol_version,
            supports_both_encoder_states: self.supports_both_encoder_states,
            states: DeviceState::all_released(self.key_count, self.encoder_count),
        }
    }

    /// Appends the reports that carry the image data, split into packets.
    fn write_image_data_reports(&self, reports: &mut Vec<Vec<u8>>, image_data: &[u8])
        requires
            self@.wf(),
        ensures
            report_bytes(final(reports)@) == report_bytes(old(reports)@) + image_reports(
                image_data@,
                self@.packet_size,
            ),
    {
        push_image_reports(reports, image_data, self.packet_size)
    }

    /// Writes data to device
    pub fn write_data(&self, payload: &[u8]) -> (call: Call)
        ensures
            call@ == writing(seq![payload@]),
    {
        let mut reports: Vec<Vec<u8>> = Vec::new();
        push_report(&mut reports, vstd::slice::slice_to_vec(payload));
        assert(report_bytes(reports@) =~= seq![payload@]);
        Call::start(reports, Completion::Nothing)
    }

    /// Writes data to device extending payload to the required size
    pub fn write_extended_data(&self, payload: &mut Vec<u8>) -> (call: Call)
        requires
            self@.wf(),
        ensures
            final(payload)@ == self@.report(old(payload)@),
            call@ == writing(seq![self@.report(old(payload)@)]),
    {
        extend_payload(payload, self.packet_size);
        self.write_data(payload.as_slice())
    }

    /// Set the device mode, for some devices it's required to set the device to the correct mode
    /// before sending any other command
    pub fn set_mode(&self, mode: u8) -> (call: Call)
        requires
            self@.wf(),
            0x30 + mode <= 0xff,
        ensures
            call@ == writing(seq![self@.report(mode_command(mode))]),
            call@.reports[0][11] == 0x30 + mode,
    {
        let mut command: Vec<u8> = vec![
            0x00, 0x43, 0x52, 0x54, 0x00, 0x00, 0x4d, 0x4f, 0x44, 0x00, 0x00, 0x30 + mode,
        ];
        assert(command@ =~= mode_command(mode));
        self.write_extended_data(&mut command)
    }

    /// Lets the effect of a call whose last report is written come about.
    fn take_effect(&mut self, effect: Completion)
        ensures
            final(self)@ == old(self)@.affected(effect),
    {
        match effect {
            Completion::Commit { count } => {
                if count <= self.image_cache.len() {
                    let kept: Vec<ImageCache> = self.image_cache.split_off(count);
                    self.image_cache = kept;
                } else {
                    self.image_cache.clear();
                }
                self.clear_waits = false;
                assert(self@.images =~= without_first(old(self)@.images, count));
            },
            Completion::LeaveClear => {
                self.clear_waits = true;
            },
            _ => {},
        }
    }

    /// Goes on with a call after what it asked for was done, or has failed.
    pub fn resume(&mut self, call: &mut Call, reply: Reply)
        ensures
            final(self)@ == old(self)@.resumed(old(call)@, reply@).0,
            final(call)@ == old(self)@.resumed(old(call)@, reply@).1,
    {
        let writing_now: bool = call.asks_for_write();
        let converting_now: bool = call.asks_for_image();
        match reply {
            Reply::Written => {
                if writing_now {
                    let effect: Completion = call.note_written();
                    self.take_effect(effect);
                }
            },
            Reply::Converted(image_data) => {
                if converting_now {
                    if let Completion::StoreImage { key } = call.completion() {
                        let ghost data = image_data@;
                        self.image_cache.push(ImageCache { key, image_data });
                        assert(self@.images =~= old(self)@.images.push(ImageView { key, data }));
                        call.note_stored();
                    }
                }
            },
            Reply::Failed => {
                if writing_now || converting_now {
                    call.note_failed();
                }
            },
        }
    }
}

} // verus!
