//! What holds of every device and of every call on it.

use vstd::prelude::*;

use crate::call::{started, writing, CallView, Completion, ReplyView, RequestView};
use crate::device::{
    connected_device, packet_size_of, send_all_reports, send_reports, DeviceView, ImageView,
};
use crate::report::{
    brightness_command, clear_command, command, commit_command, dark_command, display_command,
    extended, image_command, image_reports, law_image_survives, led_brightness_command,
    led_colors_command, packet_count,
};
use crate::types::DeviceInfoView;

verus! {

/// Whether every report has one byte more than a packet, and starts with the report id 0.
pub open spec fn reports_framed(reports: Seq<Seq<u8>>, packet_size: nat) -> bool {
    forall|i: int|
        0 <= i < reports.len() ==> (#[trigger] reports[i]).len() == packet_size + 1 && reports[i][0]
            == 0
}

impl DeviceView {
    /// The device and a call on it after several replies.
    pub open spec fn resumed_all(self, call: CallView, replies: Seq<ReplyView>) -> (
        DeviceView,
        CallView,
    )
        decreases replies.len(),
    {
        if replies.len() == 0 {
            (self, call)
        } else {
            let earlier = self.resumed_all(call, replies.drop_last());
            earlier.0.resumed(earlier.1, replies.last())
        }
    }
}

/// The reply that a report was written, `count` times.
pub open spec fn writes(count: nat) -> Seq<ReplyView> {
    Seq::new(count, |i: int| ReplyView::Written)
}

/// A device keeps its protocol version and packet size through everything that is done with it.
pub proof fn law_wf_kept(
    device: DeviceView,
    call: CallView,
    reply: ReplyView,
    image: ImageView,
    supports: bool,
)
    requires
        device.wf(),
    ensures
        device.awake().wf(),
        device.resumed(call, reply).0.wf(),
        (DeviceView { images: device.images.push(image), ..device }).wf(),
        (DeviceView { supports_both_encoder_states: supports, ..device }).wf(),
{
}

/// Protocol version 0 is never asked for: it is taken exactly where the device reports no serial
/// number. Only a device of protocol version 3 is taken to report both states of an encoder.
pub proof fn law_protocol_zero_is_automatic(
    info: DeviceInfoView,
    protocol_version: nat,
    key_count: nat,
    encoder_count: nat,
)
    requires
        1 <= protocol_version <= 3,
        protocol_version == 1 || info.serial_number is Some,
    ensures
        ({
            let device = connected_device(info, protocol_version, key_count, encoder_count);
            &&& device.wf()
            &&& device.protocol_version == 0 <==> info.serial_number is None
            &&& device.protocol_version != 0 ==> device.protocol_version == protocol_version
            &&& device.supports_both_encoder_states <==> device.protocol_version == 3
            &&& device.packet_size == packet_size_of(device.protocol_version)
        }),
{
}

/// Every report of a command or of an image has one byte more than a packet, and starts with the
/// report id 0.
pub proof fn law_reports_framed(device: DeviceView, body: Seq<u8>, key: u8)
    requires
        device.wf(),
    ensures
        reports_framed(device.initialize_reports(), device.packet_size),
        reports_framed(device.command_call(command(body)).reports, device.packet_size),
        reports_framed(seq![device.report(command(body))], device.packet_size),
        reports_framed(device.clear_call(key).reports, device.packet_size),
        reports_framed(device.reset_call().reports, device.packet_size),
        reports_framed(device.shutdown_call().reports, device.packet_size),
        reports_framed(device.flush_call().reports, device.packet_size),
{
    lemma_send_all_framed(device.images, device.packet_size);
}

proof fn lemma_send_all_framed(images: Seq<ImageView>, packet_size: nat)
    ensures
        reports_framed(send_all_reports(images, packet_size), packet_size),
    decreases images.len(),
{
    if images.len() > 0 {
        lemma_send_all_framed(images.drop_last(), packet_size);
    }
}

/// A brightness over one hundred percent is sent as one hundred, any other as it is.
pub proof fn law_brightness_clamped(device: DeviceView, percent: u8)
    requires
        device.wf(),
    ensures
        device.report(brightness_command(percent))[11] == if percent <= 100 {
            percent
        } else {
            100
        },
        device.report(led_brightness_command(percent))[11] == if percent <= 100 {
            percent
        } else {
            100
        },
        percent >= 100 ==> brightness_command(percent) == brightness_command(100),
        percent >= 100 ==> led_brightness_command(percent) == led_brightness_command(100),
{
}

/// Each part of each color stands in its place, as far as the report reaches.
pub proof fn law_colors_in_place(device: DeviceView, colors: Seq<[u8; 3]>, light: int, part: int)
    requires
        device.wf(),
        0 <= light < colors.len(),
        0 <= part < 3,
        11 + 3 * light + part <= device.packet_size,
    ensures
        device.report(led_colors_command(colors))[11 + 3 * light + part] == colors[light]@[part],
{
    assert((3 * light + part) / 3 == light);
    assert((3 * light + part) % 3 == part);
}

/// Extending data that has the size of a report already changes nothing.
pub proof fn law_extending_twice(device: DeviceView, payload: Seq<u8>)
    ensures
        device.report(device.report(payload)) == device.report(payload),
{
    assert(device.report(device.report(payload)) =~= device.report(payload));
}

/// Sending images together is sending them one after the other, in their order.
pub proof fn law_images_in_order(first: Seq<ImageView>, second: Seq<ImageView>, packet_size: nat)
    ensures
        send_all_reports(first + second, packet_size) == send_all_reports(first, packet_size)
            + send_all_reports(second, packet_size),
    decreases second.len(),
{
    if second.len() == 0 {
        assert(first + second =~= first);
        assert(send_all_reports(first, packet_size) =~= send_all_reports(first, packet_size)
            + send_all_reports(second, packet_size));
    } else {
        law_images_in_order(first, second.drop_last(), packet_size);
        assert((first + second).drop_last() =~= first + second.drop_last());
        assert((first + second).last() == second.last());
        assert(send_all_reports(first + second, packet_size) =~= send_all_reports(
            first,
            packet_size,
        ) + send_all_reports(second, packet_size));
    }
}

/// What a reply does. A written report counts; where it was the last one, a commit drops the
/// images that were sent and the clear that waits, and a clear begins to wait. A converted image
/// goes to the end of the queue under its key. A failure ends the call. A reply that answers
/// nothing that was asked for changes nothing, and no reply changes anything else of a device.
pub proof fn law_resume(device: DeviceView, call: CallView, reply: ReplyView)
    ensures
        ({
            let (now, next) = device.resumed(call, reply);
            let writes = !call.failed && call.written < call.reports.len();
            let last = call.written + 1 == call.reports.len();
            let converts = !call.failed && call.written >= call.reports.len();
            &&& next.reports == call.reports
            &&& now == (DeviceView { images: now.images, clear_waits: now.clear_waits, ..device })
            &&& next.written == (if writes && reply is Written {
                call.written + 1
            } else {
                call.written
            })
            &&& next.failed == (call.failed || (reply is Failed && (writes || (converts
                && call.completion is StoreImage))))
            &&& now.clear_waits == (if writes && last && reply is Written && call.completion
                is Commit {
                false
            } else if writes && last && reply is Written && call.completion is LeaveClear {
                true
            } else {
                device.clear_waits
            })
            &&& (if writes && last && reply is Written && call.completion is Commit {
                &&& call.completion->count >= device.images.len() ==> now.images.len() == 0
                &&& call.completion->count <= device.images.len() ==> now.images
                    == device.images.subrange(
                    call.completion->count as int,
                    device.images.len() as int,
                )
            } else if converts && call.completion is StoreImage && reply is Converted {
                &&& now.images.len() == device.images.len() + 1
                &&& now.images.drop_last() == device.images
                &&& now.images.last().key == call.completion->key
                &&& now.images.last().data == reply->Converted_0
            } else {
                now.images == device.images
            })
            &&& (if (writes && last && reply is Written && !(call.completion is StoreImage)) || (
            converts && call.completion is StoreImage && reply is Converted) {
                next.completion is Nothing
            } else {
                next.completion == call.completion
            })
        }),
{
    let now = device.resumed(call, reply).0;
    if reply is Converted && call.request() is Convert {
        assert(now.images.drop_last() =~= device.images);
    }
}

/// While reports are left, a call asks for them in order: after `count` of them are written, for
/// the next one.
pub proof fn law_reports_asked_in_order(
    device: DeviceView,
    reports: Seq<Seq<u8>>,
    completion: Completion,
    count: nat,
)
    requires
        count < reports.len(),
    ensures
        ({
            let (now, call) = device.resumed_all(started(reports, completion), writes(count));
            &&& now == device
            &&& call == (CallView { reports, written: count, completion, failed: false })
            &&& call.request() == RequestView::Write(reports[count as int])
        }),
    decreases count,
{
    if count > 0 {
        let before = (count - 1) as nat;
        law_reports_asked_in_order(device, reports, completion, before);
        assert(writes(count).drop_last() =~= writes(before));
    }
}

/// Once all its reports are written, a call that only writes has succeeded and has left the
/// device as it was at its start.
pub proof fn law_writing_succeeds(device: DeviceView, reports: Seq<Seq<u8>>)
    ensures
        ({
            let (now, call) = device.resumed_all(writing(reports), writes(reports.len()));
            &&& now == device
            &&& call.request() is Finished
        }),
{
    if reports.len() > 0 {
        let before = (reports.len() - 1) as nat;
        law_reports_asked_in_order(device, reports, Completion::Nothing, before);
        assert(writes(reports.len()).drop_last() =~= writes(before));
    }
}

/// A call that something failed for asks for nothing more, and no reply changes it or the device
/// any more.
pub proof fn law_failure_is_final(device: DeviceView, call: CallView, reply: ReplyView)
    ensures
        call.request() is Write || call.request() is Convert ==> device.resumed(
            call,
            ReplyView::Failed,
        ).0 == device && device.resumed(call, ReplyView::Failed).1.request() is Failed,
        call.request() is Failed ==> device.resumed(call, reply) == (device, call),
{
}

/// Once all its reports are written, a flush has succeeded, no images are queued and no clear
/// waits; a flush after it writes nothing.
pub proof fn law_flush_succeeds(device: DeviceView)
    requires
        device.images.len() <= usize::MAX,
    ensures
        ({
            let flush = device.flush_call();
            let (now, call) = device.awake().resumed_all(flush, writes(flush.reports.len()));
            &&& call.request() is Finished
            &&& now == (DeviceView {
                images: Seq::empty(),
                clear_waits: false,
                ..device.awake()
            })
            &&& now.flush_call() == writing(Seq::empty())
        }),
{
    let flush = device.flush_call();
    if flush.reports.len() > 0 {
        let before = (flush.reports.len() - 1) as nat;
        law_reports_asked_in_order(device.awake(), flush.reports, flush.completion, before);
        assert(writes(flush.reports.len()).drop_last() =~= writes(before));
    }
    assert(device.images.len() == 0 ==> device.images =~= Seq::empty());
    assert(device.images.skip(device.images.len() as int) =~= Seq::empty());
}

/// A clear is committed by the next flush: once the clear is written it waits, the clear itself
/// commits nothing, and the flush then ends in the commit, whether images are queued or not. Once
/// the flush has succeeded no clear waits.
pub proof fn law_flush_commits_clear(device: DeviceView, key: u8)
    requires
        device.wf(),
        device.images.len() <= usize::MAX,
    ensures
        ({
            let clear = device.clear_call(key);
            let commit = device.report(commit_command());
            let (now, done) = device.awake().resumed_all(clear, writes(clear.reports.len()));
            let flush = now.flush_call();
            let (after, flushed) = now.resumed_all(flush, writes(flush.reports.len()));
            &&& done.request() is Finished
            &&& now == (DeviceView { clear_waits: true, ..device.awake() })
            &&& forall|i: int|
                0 <= i < clear.reports.len() ==> #[trigger] clear.reports[i] != commit
            &&& flush.reports == send_all_reports(device.images, device.packet_size).push(commit)
            &&& flushed.request() is Finished
            &&& !after.clear_waits
        }),
{
    let clear = device.clear_call(key);
    let commit = device.report(commit_command());
    let last = (clear.reports.len() - 1) as nat;
    law_reports_asked_in_order(device.awake(), clear.reports, clear.completion, last);
    assert(writes(clear.reports.len()).drop_last() =~= writes(last));
    let now = DeviceView { clear_waits: true, ..device.awake() };
    assert(now.awake() == now);
    law_flush_succeeds(now);
    assert(now.initialize_reports() + send_all_reports(device.images, device.packet_size)
        =~= send_all_reports(device.images, device.packet_size));
    assert(commit[6] == 0x53);
    assert(device.report(display_command())[6] == 0x44);
    assert(device.report(dark_command())[6] == 0x4c);
    assert(device.report(clear_command(key))[6] == 0x43);
}

/// A reset leaves nothing to a flush: from protocol version 2 on it ends in the commit, and once
/// its reports are written no clear waits. Queued images stay queued.
pub proof fn law_reset_commits(device: DeviceView)
    ensures
        ({
            let reset = device.reset_call();
            let (now, call) = device.awake().resumed_all(reset, writes(reset.reports.len()));
            &&& device.protocol_version >= 2 ==> reset.reports.last() == device.report(
                commit_command(),
            )
            &&& call.request() is Finished
            &&& now == (DeviceView { clear_waits: false, ..device.awake() })
        }),
{
    let reset = device.reset_call();
    let last = (reset.reports.len() - 1) as nat;
    law_reports_asked_in_order(device.awake(), reset.reports, reset.completion, last);
    assert(writes(reset.reports.len()).drop_last() =~= writes(last));
    assert(device.images.skip(0) =~= device.images);
}

/// Images that are queued while a flush is under way are still queued when it has succeeded.
pub proof fn law_flush_spares_later_images(device: DeviceView, later: Seq<ImageView>)
    requires
        0 < device.images.len() <= usize::MAX,
    ensures
        ({
            let flush = device.flush_call();
            let last = (flush.reports.len() - 1) as nat;
            let (now, call) = device.awake().resumed_all(flush, writes(last));
            let fuller = DeviceView { images: now.images + later, ..now };
            &&& fuller.resumed(call, ReplyView::Written).0 == (DeviceView {
                images: later,
                clear_waits: false,
                ..now
            })
            &&& fuller.resumed(call, ReplyView::Written).1.request() is Finished
        }),
{
    let flush = device.flush_call();
    let last = (flush.reports.len() - 1) as nat;
    law_reports_asked_in_order(device.awake(), flush.reports, flush.completion, last);
    assert((device.images + later).skip(device.images.len() as int) =~= later);
}

/// A flush of which a report could not be written keeps the images and the clear that waits, and
/// the next flush sends all of them and commits.
pub proof fn law_failed_flush_keeps_images(device: DeviceView, count: nat)
    requires
        count < device.flush_call().reports.len(),
    ensures
        ({
            let (now, call) = device.awake().resumed_all(
                device.flush_call(),
                writes(count).push(ReplyView::Failed),
            );
            &&& call.request() is Failed
            &&& now == device.awake()
            &&& device.images.len() > 0 || device.clear_waits ==> now.flush_call() == started(
                send_all_reports(device.images, device.packet_size).push(
                    device.report(commit_command()),
                ),
                Completion::Commit { count: device.images.len() as usize },
            )
        }),
{
    let flush = device.flush_call();
    law_reports_asked_in_order(device.awake(), flush.reports, flush.completion, count);
    assert(writes(count).push(ReplyView::Failed).drop_last() =~= writes(count));
    assert(device.awake().initialize_reports() + send_all_reports(
        device.images,
        device.packet_size,
    ) =~= send_all_reports(device.images, device.packet_size));
}

/// Setting the image of a button initializes the device, asks for the image, and queues it as
/// writing it would have done; where it cannot be had, nothing is queued.
pub proof fn law_set_button_image_queues(device: DeviceView, key: u8, data: Seq<u8>)
    ensures
        ({
            let start = started(device.initialize_reports(), Completion::StoreImage { key });
            let (now, call) = device.awake().resumed_all(start, writes(start.reports.len()));
            let (stored, done) = now.resumed(call, ReplyView::Converted(data));
            let (left, failed) = now.resumed(call, ReplyView::Failed);
            &&& now == device.awake()
            &&& call.request() is Convert
            &&& stored == (DeviceView {
                images: device.images.push(ImageView { key, data }),
                ..device.awake()
            })
            &&& done.request() is Finished
            &&& left == device.awake()
            &&& failed.request() is Failed
        }),
{
    let reports = device.initialize_reports();
    if reports.len() > 0 {
        let before = (reports.len() - 1) as nat;
        law_reports_asked_in_order(
            device.awake(),
            reports,
            Completion::StoreImage { key },
            before,
        );
        assert(writes(reports.len()).drop_last() =~= writes(before));
    }
}

/// The images that a device takes out of the reports that it gets, up to the first report that
/// announces none: the announcement names the key and the length, and the packets follow.
pub open spec fn received_images(reports: Seq<Seq<u8>>, packet_size: nat) -> Seq<ImageView>
    decreases reports.len(),
{
    if reports.len() == 0 || reports[0].take(9) != command(seq![0x42u8, 0x41u8, 0x54u8]) {
        Seq::empty()
    } else {
        let len = (reports[0][11] * 256 + reports[0][12]) as nat;
        let packets = packet_count(len, packet_size);
        if reports.len() < 1 + packets {
            Seq::empty()
        } else {
            let data = Seq::new(
                len,
                |i: int| reports[1 + i / packet_size as int][1 + i % packet_size as int],
            );
            seq![ImageView { key: (reports[0][13] - 1) as u8, data }] + received_images(
                reports.skip(1 + packets as int),
                packet_size,
            )
        }
    }
}

/// What a flush sends can be read back: the device gets exactly the queued images, in their
/// order, each under its key. The announced length has sixteen bits, so this is about images of
/// less than 65536 bytes.
pub proof fn law_flush_read_back(device: DeviceView)
    requires
        device.wf(),
        device.can_flush(),
        forall|i: int| 0 <= i < device.images.len() ==> (#[trigger] device.images[i]).data.len()
            < 65536,
    ensures
        received_images(
            device.flush_call().reports.skip(device.initialize_reports().len() as int),
            device.packet_size,
        ) == device.images,
{
    let size = device.packet_size;
    let tail = seq![device.report(commit_command())];
    if device.images.len() == 0 && !device.clear_waits {
        assert(device.images =~= Seq::empty());
    } else {
        assert(device.flush_call().reports.skip(device.initialize_reports().len() as int)
            =~= send_all_reports(device.images, size) + tail);
        lemma_read_back(device.images, tail, size);
        assert(tail[0].take(9)[6] == 0x53);
        assert(command(seq![0x42u8, 0x41u8, 0x54u8])[6] == 0x42);
        assert(device.images + received_images(tail, size) =~= device.images);
    }
}

/// What was sent is read back, and then what follows.
proof fn lemma_read_back(images: Seq<ImageView>, tail: Seq<Seq<u8>>, packet_size: nat)
    requires
        packet_size >= 512,
        forall|i: int|
            0 <= i < images.len() ==> (#[trigger] images[i]).data.len() < 65536 && images[i].key
                < 0xff,
    ensures
        received_images(send_all_reports(images, packet_size) + tail, packet_size) == images
            + received_images(tail, packet_size),
    decreases images.len(),
{
    if images.len() == 0 {
        assert(send_all_reports(images, packet_size) + tail =~= tail);
        assert(images + received_images(tail, packet_size) =~= received_images(
            tail,
            packet_size,
        ));
    } else {
        let rest = images.drop_last();
        let image = images.last();
        let own = send_reports(image, packet_size);
        assert forall|i: int| 0 <= i < rest.len() implies (#[trigger] rest[i]).data.len() < 65536
            && rest[i].key < 0xff by {
            assert(images[i] == rest[i]);
        }
        lemma_read_back(rest, own + tail, packet_size);
        assert(send_all_reports(images, packet_size) + tail =~= send_all_reports(rest, packet_size)
            + (own + tail));
        assert(images[images.len() - 1] == image);
        lemma_read_one(image, tail, packet_size);
        assert(images + received_images(tail, packet_size) =~= rest + (seq![image]
            + received_images(tail, packet_size)));
    }
}

/// One image that was sent is read back, and then what follows.
proof fn lemma_read_one(image: ImageView, tail: Seq<Seq<u8>>, packet_size: nat)
    requires
        packet_size >= 512,
        image.data.len() < 65536,
        image.key < 0xff,
    ensures
        received_images(send_reports(image, packet_size) + tail, packet_size) == seq![image]
            + received_images(tail, packet_size),
{
    let reports = send_reports(image, packet_size) + tail;
    let len = image.data.len();
    let packets = image_reports(image.data, packet_size);
    let head = reports[0];
    assert(head == extended(image_command(len, image.key), packet_size + 1));
    assert(head.take(9) =~= command(seq![0x42u8, 0x41u8, 0x54u8]));
    assert(head[11] == (len / 256) % 256);
    assert(head[12] == len % 256);
    assert(head[13] == image.key + 1);
    assert(head[11] * 256 + head[12] == len);
    let data = Seq::new(
        len,
        |i: int| reports[1 + i / packet_size as int][1 + i % packet_size as int],
    );
    assert forall|i: int| 0 <= i < len implies data[i] == image.data[i] by {
        law_image_survives(image.data, packet_size, i);
        assert(reports[1 + i / packet_size as int] == packets[i / packet_size as int]);
    }
    assert(data =~= image.data);
    assert(reports.skip(1 + packets.len() as int) =~= tail);
}

} // verus!
