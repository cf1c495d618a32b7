//! The output reports that a device understands, byte by byte.

use vstd::prelude::*;

verus! {

/// The bytes of each report of a list.
pub open spec fn report_bytes(reports: Seq<Vec<u8>>) -> Seq<Seq<u8>> {
    reports.map_values(|report: Vec<u8>| report@)
}

/// `payload` cut or zero-filled to exactly `size` bytes.
pub open spec fn extended(payload: Seq<u8>, size: nat) -> Seq<u8> {
    Seq::new(size, |i: int| if i < payload.len() { payload[i] } else { 0u8 })
}

/// A command: the report id 0, the letters `CRT`, two zero bytes, and the command's own bytes.
pub open spec fn command(body: Seq<u8>) -> Seq<u8> {
    seq![0x00u8, 0x43u8, 0x52u8, 0x54u8, 0x00u8, 0x00u8] + body
}

/// `DIS`, the first report of the initialization.
pub open spec fn display_command() -> Seq<u8> {
    command(seq![0x44u8, 0x49u8, 0x53u8])
}

/// `LIG` with every parameter zero, the second report of the initialization.
pub open spec fn dark_command() -> Seq<u8> {
    command(seq![0x4cu8, 0x49u8, 0x47u8, 0x00u8, 0x00u8, 0x00u8, 0x00u8])
}

/// The brightness that is sent for a requested one: at most one hundred percent.
pub open spec fn clamped_percent(percent: u8) -> u8 {
    if percent > 100 {
        100u8
    } else {
        percent
    }
}

/// `LIG` with a brightness in percent.
pub open spec fn brightness_command(percent: u8) -> Seq<u8> {
    command(seq![0x4cu8, 0x49u8, 0x47u8, 0x00u8, 0x00u8, clamped_percent(percent)])
}

/// `LBLIG` with the brightness of the knob lights in percent.
pub open spec fn led_brightness_command(percent: u8) -> Seq<u8> {
    command(seq![0x4cu8, 0x42u8, 0x4cu8, 0x49u8, 0x47u8, clamped_percent(percent)])
}

/// The red, green and blue parts of each color, one color after another.
pub open spec fn color_bytes(colors: Seq<[u8; 3]>) -> Seq<u8> {
    Seq::new(3 * colors.len(), |i: int| colors[i / 3]@[i % 3])
}

/// `SETLB` with the color of each knob light.
pub open spec fn led_colors_command(colors: Seq<[u8; 3]>) -> Seq<u8> {
    command(seq![0x53u8, 0x45u8, 0x54u8, 0x4cu8, 0x42u8] + color_bytes(colors))
}

/// `BAT`: an image of `len` bytes for `key` follows. Only the low sixteen bits of the length are
/// sent, high byte first, and keys count from one.
pub open spec fn image_command(len: nat, key: u8) -> Seq<u8> {
    command(
        seq![
            0x42u8,
            0x41u8,
            0x54u8,
            0x00u8,
            0x00u8,
            ((len / 256) % 256) as u8,
            (len % 256) as u8,
            (key + 1) as u8,
        ],
    )
}

/// How a key to be cleared is named: 0xff stands for all keys, others count from one.
pub open spec fn cleared_key(key: u8) -> u8 {
    if key == 0xff {
        0xffu8
    } else {
        (key + 1) as u8
    }
}

/// `CLE` with the key to be cleared.
pub open spec fn clear_command(key: u8) -> Seq<u8> {
    command(seq![0x43u8, 0x4cu8, 0x45u8, 0x00u8, 0x00u8, 0x00u8, cleared_key(key)])
}

/// `STP`, which makes what was sent before it visible.
pub open spec fn commit_command() -> Seq<u8> {
    command(seq![0x53u8, 0x54u8, 0x50u8])
}

/// `HAN`, which puts the device to sleep.
pub open spec fn sleep_command() -> Seq<u8> {
    command(seq![0x48u8, 0x41u8, 0x4eu8])
}

/// `CONNECT`, which keeps the device alive.
pub open spec fn keep_alive_command() -> Seq<u8> {
    command(seq![0x43u8, 0x4fu8, 0x4eu8, 0x4eu8, 0x45u8, 0x43u8, 0x54u8])
}

/// `CLE` with the letters `DC`, which announces that the host goes away.
pub open spec fn goodbye_command() -> Seq<u8> {
    command(seq![0x43u8, 0x4cu8, 0x45u8, 0x00u8, 0x00u8, 0x44u8, 0x43u8])
}

/// `MOD` with the mode as an offset from the digit zero.
pub open spec fn mode_command(mode: u8) -> Seq<u8> {
    command(seq![0x4du8, 0x4fu8, 0x44u8, 0x00u8, 0x00u8, (0x30 + mode) as u8])
}

/// The number of packets of `packet_size` bytes that `len` bytes fill, the last one maybe in part.
pub open spec fn packet_count(len: nat, packet_size: nat) -> nat {
    (len + packet_size - 1) as nat / packet_size
}

/// The report that carries packet number `page` of an image: the report id 0, then
/// `packet_size` bytes of the image, zeros where the image has ended.
pub open spec fn image_report(image: Seq<u8>, packet_size: nat, page: int) -> Seq<u8> {
    Seq::new(
        packet_size + 1,
        |i: int|
            if 0 < i && page * packet_size + i - 1 < image.len() {
                image[page * packet_size + i - 1]
            } else {
                0u8
            },
    )
}

/// The reports that carry an image, in order.
pub open spec fn image_reports(image: Seq<u8>, packet_size: nat) -> Seq<Seq<u8>> {
    Seq::new(
        packet_count(image.len(), packet_size),
        |page: int| image_report(image, packet_size, page),
    )
}

/// A packet that starts inside the image is one of those counted; the one in which the image ends
/// is the last.
proof fn lemma_packet_count(len: nat, packet_size: nat, page: nat)
    requires
        packet_size > 0,
    ensures
        len == 0 ==> packet_count(len, packet_size) == 0,
        page * packet_size < len ==> page < packet_count(len, packet_size),
        page * packet_size < len <= (page + 1) * packet_size ==> packet_count(len, packet_size)
            == page + 1,
        packet_count(len, packet_size) <= len,
{
    let size = packet_size as int;
    let total = len + packet_size - 1;
    let count = total / size;
    let rest = total % size;
    vstd::arithmetic::div_mod::lemma_fundamental_div_mod(total, size);
    vstd::arithmetic::div_mod::lemma_mod_bound(total, size);
    assert(len == 0 ==> count == 0) by (nonlinear_arith)
        requires
            size > 0,
            len >= 0,
            total == len + size - 1,
            total == size * count + rest,
            0 <= rest < size,
    ;
    assert(page * size < len ==> page < count) by (nonlinear_arith)
        requires
            size > 0,
            total == len + size - 1,
            total == size * count + rest,
            0 <= rest < size,
    ;
    assert(len <= (page + 1) * size ==> count <= page + 1) by (nonlinear_arith)
        requires
            size > 0,
            total == len + size - 1,
            total == size * count + rest,
            0 <= rest < size,
    ;
    assert(count <= len) by (nonlinear_arith)
        requires
            size > 0,
            len >= 0,
            total == len + size - 1,
            total == size * count + rest,
            0 <= rest < size,
    ;
}

/// Splitting an image into packets loses nothing: byte number `i` of the image is found in the
/// packet that it falls into, at its place behind the report id.
pub proof fn law_image_survives(image: Seq<u8>, packet_size: nat, i: int)
    requires
        packet_size > 0,
        0 <= i < image.len(),
    ensures
        0 <= i / packet_size as int,
        (i / packet_size as int) < image_reports(image, packet_size).len(),
        image_reports(image, packet_size)[i / packet_size as int][1 + i % packet_size as int]
            == image[i],
{
    let size = packet_size as int;
    vstd::arithmetic::div_mod::lemma_fundamental_div_mod(i, size);
    vstd::arithmetic::div_mod::lemma_mod_bound(i, size);
    vstd::arithmetic::div_mod::lemma_div_pos_is_pos(i, size);
    let page = i / size;
    assert(page * size <= i) by (nonlinear_arith)
        requires
            i == size * page + i % size,
            0 <= i % size,
    ;
    assert(page * size == size * page) by (nonlinear_arith);
    lemma_packet_count(image.len(), packet_size, page as nat);
}

/// The packets of an image hold nothing but the image: what is behind its end is zero, and only
/// the last packet reaches there.
pub proof fn law_padding_is_zero(image: Seq<u8>, packet_size: nat, page: int, offset: int)
    requires
        packet_size > 0,
        0 <= page < image_reports(image, packet_size).len(),
        0 <= offset < packet_size,
        page * packet_size + offset >= image.len(),
    ensures
        image_reports(image, packet_size)[page][1 + offset] == 0,
        page == image_reports(image, packet_size).len() - 1,
{
    let size = packet_size as int;
    let count = image_reports(image, packet_size).len() as int;
    let total = image.len() + packet_size - 1;
    vstd::arithmetic::div_mod::lemma_fundamental_div_mod(total, size);
    vstd::arithmetic::div_mod::lemma_mod_bound(total, size);
    let rest = total % size;
    assert(page == count - 1) by (nonlinear_arith)
        requires
            size > 0,
            0 <= page < count,
            0 <= offset < size,
            page * size + offset >= total - size + 1,
            total == size * count + rest,
            0 <= rest < size,
    ;
}

/// An image fills as many packets as its length asks for, and each packet is a report that starts
/// with the report id 0 and has one byte more than a packet.
pub proof fn law_packet_frames(image: Seq<u8>, packet_size: nat)
    requires
        packet_size > 0,
    ensures
        ({
            let count = image_reports(image, packet_size).len();
            (count - 1) * packet_size < image.len() <= count * packet_size
        }),
        forall|page: int|
            0 <= page < image_reports(image, packet_size).len() ==> (#[trigger] image_reports(
                image,
                packet_size,
            )[page]).len() == packet_size + 1 && image_reports(image, packet_size)[page][0] == 0,
{
    let size = packet_size as int;
    let count = image_reports(image, packet_size).len() as int;
    let total = image.len() + packet_size - 1;
    let rest = total % size;
    vstd::arithmetic::div_mod::lemma_fundamental_div_mod(total, size);
    vstd::arithmetic::div_mod::lemma_mod_bound(total, size);
    assert((count - 1) * size < total - size + 1 <= count * size) by (nonlinear_arith)
        requires
            size > 0,
            total == size * count + rest,
            0 <= rest < size,
    ;
}

/// The bytes of a list of reports are those of each report in turn.
pub proof fn law_report_list(reports: Seq<Vec<u8>>)
    ensures
        report_bytes(reports).len() == reports.len(),
        forall|i: int|
            0 <= i < reports.len() ==> #[trigger] report_bytes(reports)[i] == reports[i]@,
{
}

/// Appends a report.
pub(crate) fn push_report(reports: &mut Vec<Vec<u8>>, report: Vec<u8>)
    ensures
        report_bytes(final(reports)@) == report_bytes(old(reports)@).push(report@),
{
    reports.push(report);
    assert(report_bytes(reports@) =~= report_bytes(old(reports)@).push(report@));
}

/// Extends `payload` to the size of a report, that is one byte more than a packet.
pub(crate) fn extend_payload(payload: &mut Vec<u8>, packet_size: usize)
    requires
        packet_size < usize::MAX,
    ensures
        final(payload)@ == extended(old(payload)@, packet_size as nat + 1),
{
    payload.resize(1 + packet_size, 0);
    assert(payload@ =~= extended(old(payload)@, packet_size as nat + 1)) by {
        if packet_size + 1 > old(payload)@.len() {
            assert forall|i: int| 0 <= i < old(payload)@.len() implies payload@[i] == old(
                payload,
            )@[i] by {
                assert(payload@.subrange(0, old(payload)@.len() as int)[i] == payload@[i]);
            }
        }
    }
}

/// Appends the reports that carry `image_data`.
pub(crate) fn push_image_reports(
    reports: &mut Vec<Vec<u8>>,
    image_data: &[u8],
    packet_size: usize,
)
    requires
        0 < packet_size < usize::MAX,
    ensures
        report_bytes(final(reports)@) == report_bytes(old(reports)@) + image_reports(
            image_data@,
            packet_size as nat,
        ),
{
    let image_report_length: usize = packet_size + 1;
    let ghost before = report_bytes(reports@);
    let ghost image = image_data@;
    let ghost size = packet_size as nat;
    let mut page_number: usize = 0;
    let mut bytes_remaining: usize = image_data.len();
    proof {
        assert(before =~= before + image_reports(image, size).take(0));
        lemma_packet_count(image.len(), size, 0);
    }
    while bytes_remaining > 0
        invariant
            0 < packet_size < usize::MAX,
            image_report_length == packet_size + 1,
            size == packet_size,
            image == image_data@,
            image.len() <= usize::MAX,
            0 <= page_number <= packet_count(image.len(), size),
            bytes_remaining <= image.len(),
            bytes_remaining > 0 ==> page_number * size == image.len() - bytes_remaining,
            bytes_remaining == 0 ==> page_number == packet_count(image.len(), size),
            report_bytes(reports@) == before + image_reports(image, size).take(page_number as int),
        decreases bytes_remaining,
    {
        let this_length: usize = if bytes_remaining < packet_size {
            bytes_remaining
        } else {
            packet_size
        };
        proof {
            lemma_packet_count(image.len(), size, page_number as nat);
            assert((page_number + 1) * size == page_number * size + size) by (nonlinear_arith);
        }
        let bytes_sent: usize = page_number * packet_size;
        let mut buf: Vec<u8> = Vec::with_capacity(image_report_length);
        buf.push(0x00);
        let packet: &[u8] = vstd::slice::slice_subrange(
            image_data,
            bytes_sent,
            bytes_sent + this_length,
        );
        buf.extend_from_slice(packet);
        let ghost filled = buf@;
        buf.resize(image_report_length, 0);
        proof {
            assert forall|i: int| 0 <= i < filled.len() implies buf@[i] == filled[i] by {
                assert(buf@.subrange(0, filled.len() as int)[i] == buf@[i]);
            }
            assert forall|i: int| 1 <= i < filled.len() implies filled[i] == image[bytes_sent + i
                - 1] by {
                assert(cloned::<u8>(packet@[i - 1], filled[i]));
            }
            let expected = image_report(image, size, page_number as int);
            assert forall|i: int| 0 <= i < image_report_length implies buf@[i]
                == #[trigger] expected[i] by {
                if i < filled.len() {
                    assert(buf@[i] == filled[i]);
                } else {
                    assert(cloned::<u8>(0u8, buf@[i]));
                    assert(page_number * size + i - 1 >= image.len());
                }
            }
            assert(buf@ =~= expected);
            let packets = image_reports(image, size);
            assert(packets.take(page_number + 1) =~= packets.take(page_number as int).push(
                packets[page_number as int],
            ));
            assert(before + packets.take(page_number + 1) =~= (before + packets.take(
                page_number as int,
            )).push(packets[page_number as int]));
        }
        push_report(reports, buf);
        bytes_remaining -= this_length;
        page_number += 1;
    }
    assert(image_reports(image, size).take(page_number as int) =~= image_reports(image, size));
}

} // verus!
