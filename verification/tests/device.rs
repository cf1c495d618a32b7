use mirajazz::call::{Call, Reply, Request};
use mirajazz::device::Device;
use mirajazz::error::MirajazzError;
use mirajazz::types::DeviceInfo;

fn info(serial_number: Option<&str>) -> DeviceInfo {
    DeviceInfo {
        id: "path".to_string(),
        name: "Deck".to_string(),
        product_id: 0x1010,
        vendor_id: 0x0300,
        usage_id: 1,
        usage_page: 65440,
        serial_number: serial_number.map(|s| s.to_string()),
    }
}

fn device(protocol_version: usize) -> Device {
    match Device::connect(&[info(Some("SN-1"))], protocol_version, 6, 3) {
        Ok(device) => device,
        Err(error) => panic!("{:?}", error),
    }
}

/// A device whose initialization is done.
fn ready(protocol_version: usize) -> Device {
    let mut device = device(protocol_version);
    let call = device.keep_alive();
    assert_eq!(written(&mut device, call).len(), 3);
    device
}

/// The reports of a call, each of which is written.
fn written(device: &mut Device, mut call: Call) -> Vec<Vec<u8>> {
    let mut reports: Vec<Vec<u8>> = Vec::new();
    loop {
        let report = match call.request() {
            Request::Write(report) => report.to_vec(),
            Request::Finished => return reports,
            other => panic!("{:?}", other),
        };
        reports.push(report);
        device.resume(&mut call, Reply::Written);
    }
}

/// `payload` filled up to a report for packets of `packet_size` bytes.
fn filled(payload: &[u8], packet_size: usize) -> Vec<u8> {
    let mut report = payload.to_vec();
    report.resize(packet_size + 1, 0);
    report
}

fn command(body: &[u8], packet_size: usize) -> Vec<u8> {
    let mut payload: Vec<u8> = b"\0CRT\0\0".to_vec();
    payload.extend_from_slice(body);
    filled(&payload, packet_size)
}

#[test]
fn connect_takes_the_last_description() {
    let mut other = info(Some("SN-2"));
    other.vendor_id = 7;
    other.product_id = 8;
    let device = Device::connect(&[info(Some("SN-1")), other], 2, 15, 4).ok().unwrap();
    assert_eq!(device.vid, 7);
    assert_eq!(device.pid, 8);
    assert_eq!(device.serial_number, "SN-2");
    assert_eq!(device.serial_number(), "SN-2");
    assert_eq!(device.key_count(), 15);
    assert_eq!(device.encoder_count(), 4);
}

#[test]
fn connect_fails_where_nothing_was_found() {
    assert_eq!(Device::connect(&[], 1, 6, 3).err(), Some(MirajazzError::DeviceNotFoundError));
    assert_eq!(Device::connect(&[], 3, 6, 3).err(), Some(MirajazzError::DeviceNotFoundError));
}

#[test]
fn connect_asks_for_a_serial_number_from_version_two_on() {
    assert_eq!(Device::connect(&[info(None)], 2, 6, 3).err(), Some(MirajazzError::InvalidDeviceError));
    assert_eq!(Device::connect(&[info(None)], 3, 6, 3).err(), Some(MirajazzError::InvalidDeviceError));
    assert_eq!(
        Device::connect(&[info(Some("SN")), info(None)], 2, 6, 3).err(),
        Some(MirajazzError::InvalidDeviceError)
    );
    assert!(Device::connect(&[info(None), info(Some("SN"))], 2, 6, 3).is_ok());
}

#[test]
fn version_one_has_a_fixed_serial_number() {
    assert_eq!(device(1).serial_number, "355499441494");
    assert_eq!(device(1).get_reader().protocol_version, 1);
    let silent = Device::connect(&[info(None)], 1, 6, 3).ok().unwrap();
    assert_eq!(silent.serial_number, "355499441494");
    assert_eq!(silent.get_reader().protocol_version, 0);
    assert!(!silent.supports_both_encoder_states());
}

#[test]
fn only_version_three_reports_both_encoder_states() {
    assert!(!device(1).supports_both_encoder_states());
    assert!(!device(2).supports_both_encoder_states());
    assert!(device(3).supports_both_encoder_states());
    assert!(device(1).with_supports_both_encoder_states(true).supports_both_encoder_states());
    assert!(!device(3).with_supports_both_encoder_states(false).supports_both_encoder_states());
}

#[test]
fn reader_starts_with_everything_released() {
    let reader = device(3).get_reader();
    assert_eq!(reader.protocol_version, 3);
    assert!(reader.supports_both_encoder_states);
    assert_eq!(reader.states.buttons, vec![false; 6]);
    assert_eq!(reader.states.encoders, vec![false; 3]);
}

#[test]
fn first_call_initializes() {
    let mut device = device(2);
    let call = device.sleep();
    assert_eq!(
        written(&mut device, call),
        vec![
            command(b"DIS", 1024),
            command(b"LIG\0\0\0\0", 1024),
            command(b"HAN", 1024),
        ]
    );
    let call = device.sleep();
    assert_eq!(written(&mut device, call), vec![command(b"HAN", 1024)]);
}

#[test]
fn failed_initialization_is_not_tried_again() {
    let mut device = device(1);
    let mut call = device.keep_alive();
    device.resume(&mut call, Reply::Failed);
    assert_eq!(call.request(), Request::Failed);
    let call = device.keep_alive();
    assert_eq!(written(&mut device, call), vec![command(b"CONNECT", 512)]);
}

#[test]
fn packets_have_the_size_of_the_protocol_version() {
    for (version, size) in [(1, 513), (2, 1025), (3, 1025)] {
        let mut device = device(version);
        let call = device.reset();
        for report in written(&mut device, call) {
            assert_eq!(report.len(), size);
            assert_eq!(report[0], 0);
        }
    }
}

#[test]
fn brightness_is_clamped() {
    let mut device = ready(1);
    for (percent, sent) in [(0u8, 0u8), (55, 55), (100, 100), (101, 100), (255, 100)] {
        let call = device.set_brightness(percent);
        let mut body: Vec<u8> = b"LIG\0\0".to_vec();
        body.push(sent);
        assert_eq!(written(&mut device, call), vec![command(&body, 512)]);
        let call = device.set_led_brightness(percent);
        let mut body: Vec<u8> = b"LBLIG".to_vec();
        body.push(sent);
        assert_eq!(written(&mut device, call), vec![command(&body, 512)]);
    }
}

#[test]
fn led_colors_follow_each_other() {
    let mut device = ready(3);
    let call = device.set_led_colors(&[[1, 2, 3], [4, 5, 6]]);
    assert_eq!(written(&mut device, call), vec![command(b"SETLB\x01\x02\x03\x04\x05\x06", 1024)]);
    let call = device.set_led_colors(&[]);
    assert_eq!(written(&mut device, call), vec![command(b"SETLB", 1024)]);
}

#[test]
fn led_colors_are_cut_at_the_end_of_the_report() {
    let mut device = ready(1);
    let colors = vec![[7u8, 8, 9]; 400];
    let call = device.set_led_colors(&colors);
    let reports = written(&mut device, call);
    assert_eq!(reports.len(), 1);
    assert_eq!(reports[0].len(), 513);
    assert_eq!(reports[0][11 + 3 * 166], 7);
    assert_eq!(reports[0][512], [7, 8, 9][(512 - 11) % 3]);
}

#[test]
fn clearing_names_keys_from_one() {
    let mut device = ready(1);
    for (key, named) in [(0u8, 1u8), (5, 6), (254, 255), (255, 255)] {
        let call = device.clear_button_image(key);
        let mut body: Vec<u8> = b"CLE\0\0\0".to_vec();
        body.push(named);
        assert_eq!(written(&mut device, call), vec![command(&body, 512)]);
    }
}

#[test]
fn clearing_everything_waits_for_a_flush() {
    for (version, size) in [(1, 512), (2, 1024), (3, 1024)] {
        let mut device = ready(version);
        let call = device.clear_all_button_images();
        assert_eq!(written(&mut device, call), vec![command(b"CLE\0\0\0\xff", size)]);
        let call = device.flush();
        assert_eq!(written(&mut device, call), vec![command(b"STP", size)]);
        let call = device.flush();
        assert_eq!(call.request(), Request::Finished);
    }
}

#[test]
fn flush_commits_a_cleared_button() {
    let mut device = device(2);
    let call = device.clear_button_image(0);
    assert_eq!(
        written(&mut device, call),
        vec![
            command(b"DIS", 1024),
            command(b"LIG\0\0\0\0", 1024),
            command(b"CLE\0\0\0\x01", 1024),
        ]
    );
    let call = device.flush();
    assert_eq!(written(&mut device, call), vec![command(b"STP", 1024)]);
    let call = device.flush();
    assert_eq!(call.request(), Request::Finished);
}

#[test]
fn flush_commits_images_and_a_clear_together() {
    let mut device = ready(1);
    device.write_image(1, &[5]).unwrap();
    let call = device.clear_button_image(0);
    assert_eq!(written(&mut device, call).len(), 1);
    let call = device.flush();
    assert_eq!(
        written(&mut device, call),
        vec![
            command(b"BAT\0\0\x00\x01\x02", 512),
            filled(&[0, 5], 512),
            command(b"STP", 512),
        ]
    );
}

#[test]
fn failed_flush_keeps_the_clear_waiting() {
    let mut device = ready(2);
    let call = device.clear_button_image(3);
    assert_eq!(written(&mut device, call).len(), 1);
    let mut call = device.flush();
    device.resume(&mut call, Reply::Failed);
    let call = device.flush();
    assert_eq!(written(&mut device, call), vec![command(b"STP", 1024)]);
}

#[test]
fn clear_that_is_not_written_does_not_wait() {
    let mut device = ready(2);
    let mut call = device.clear_button_image(3);
    device.resume(&mut call, Reply::Failed);
    assert_eq!(call.request(), Request::Failed);
    let call = device.flush();
    assert_eq!(call.request(), Request::Finished);
}

#[test]
fn reset_leaves_no_clear_waiting_and_keeps_images() {
    for (version, count) in [(1, 2), (2, 3)] {
        let mut device = ready(version);
        let call = device.clear_button_image(3);
        assert_eq!(written(&mut device, call).len(), 1);
        let call = device.reset();
        assert_eq!(written(&mut device, call).len(), count);
        let call = device.flush();
        assert_eq!(call.request(), Request::Finished);
        device.write_image(0, &[1]).unwrap();
        let call = device.reset();
        assert_eq!(written(&mut device, call).len(), count);
        let call = device.flush();
        assert_eq!(written(&mut device, call).len(), 3);
    }
}

#[test]
fn initialization_begins_once_in_a_life() {
    let mut device = device(2);
    let mut asked: Vec<Vec<u8>> = Vec::new();
    let call = device.set_mode(1);
    asked.extend(written(&mut device, call));
    device.write_image(0, &[1, 2]).unwrap();
    let call = device.flush();
    asked.extend(written(&mut device, call));
    let call = device.shutdown();
    asked.extend(written(&mut device, call));
    let call = device.reset();
    asked.extend(written(&mut device, call));
    let begins = command(b"DIS", 1024);
    assert_eq!(asked[0], command(b"MOD\0\x001", 1024));
    assert_eq!(asked[1], begins);
    assert_eq!(asked.iter().filter(|report| **report == begins).count(), 1);
}

#[test]
fn reset_lights_and_clears() {
    let mut device = device(2);
    let call = device.reset();
    assert_eq!(
        written(&mut device, call),
        vec![
            command(b"DIS", 1024),
            command(b"LIG\0\0\0\0", 1024),
            command(b"LIG\0\0\x64", 1024),
            command(b"CLE\0\0\0\xff", 1024),
            command(b"STP", 1024),
        ]
    );
}

#[test]
fn shutdown_says_goodbye_and_sleeps() {
    let mut device = ready(1);
    let call = device.shutdown();
    assert_eq!(
        written(&mut device, call),
        vec![command(b"CLE\0\0DC", 512), command(b"HAN", 512)]
    );
}

#[test]
fn mode_is_set_without_initialization() {
    let device = device(1);
    for (mode, digit) in [(0u8, b'0'), (2, b'2'), (0xcf, 0xff)] {
        let mut call = device.set_mode(mode);
        let mut body: Vec<u8> = b"MOD\0\0".to_vec();
        body.push(digit);
        assert_eq!(call.request(), Request::Write(&command(&body, 512)));
        let mut other = ready(1);
        other.resume(&mut call, Reply::Written);
        assert_eq!(call.request(), Request::Finished);
    }
}

#[test]
fn data_is_written_as_it_is() {
    let mut device = device(1);
    let call = device.write_data(&[9, 8, 7]);
    assert_eq!(written(&mut device, call), vec![vec![9, 8, 7]]);
    let call = device.write_data(&[]);
    assert_eq!(written(&mut device, call), vec![Vec::<u8>::new()]);
}

#[test]
fn extended_data_gets_the_size_of_a_report() {
    let mut device = device(1);
    let mut short = vec![1u8, 2];
    let call = device.write_extended_data(&mut short);
    assert_eq!(short, filled(&[1, 2], 512));
    assert_eq!(written(&mut device, call), vec![short.clone()]);
    let call = device.write_extended_data(&mut short);
    assert_eq!(written(&mut device, call), vec![short]);
    let mut long = vec![3u8; 600];
    let call = device.write_extended_data(&mut long);
    assert_eq!(long, vec![3u8; 513]);
    assert_eq!(written(&mut device, call), vec![long]);
}

#[test]
fn flush_without_images_only_initializes() {
    let mut device = device(1);
    let call = device.flush();
    assert_eq!(written(&mut device, call), vec![command(b"DIS", 512), command(b"LIG\0\0\0\0", 512)]);
    let call = device.flush();
    assert_eq!(call.request(), Request::Finished);
}

#[test]
fn flush_sends_images_in_order_and_commits() {
    let mut device = ready(1);
    device.write_image(4, &[1, 2, 3]).unwrap();
    device.write_image(0, &[]).unwrap();
    device.write_image(4, &[4]).unwrap();
    let call = device.flush();
    assert_eq!(
        written(&mut device, call),
        vec![
            command(b"BAT\0\0\x00\x03\x05", 512),
            filled(&[0, 1, 2, 3], 512),
            command(b"BAT\0\0\x00\x00\x01", 512),
            command(b"BAT\0\0\x00\x01\x05", 512),
            filled(&[0, 4], 512),
            command(b"STP", 512),
        ]
    );
    let call = device.flush();
    assert_eq!(call.request(), Request::Finished);
}

#[test]
fn image_data_is_split_into_packets() {
    for (version, size) in [(1usize, 512usize), (3, 1024)] {
        for len in [1, size - 1, size, size + 1, 2 * size, 2 * size + 7] {
            let mut device = ready(version);
            let image: Vec<u8> = (0..len).map(|i| (i % 251) as u8 + 1).collect();
            device.write_image(1, &image).unwrap();
            let call = device.flush();
            let reports = written(&mut device, call);
            assert_eq!(reports.len(), 2 + (len + size - 1) / size);
            assert_eq!(reports[0][11] as usize * 256 + reports[0][12] as usize, len);
            assert_eq!(reports[0][13], 2);
            let mut joined: Vec<u8> = Vec::new();
            for report in &reports[1..reports.len() - 1] {
                assert_eq!(report.len(), size + 1);
                assert_eq!(report[0], 0);
                joined.extend_from_slice(&report[1..]);
            }
            assert_eq!(joined[..len], image[..]);
            assert!(joined[len..].iter().all(|byte| *byte == 0));
        }
    }
}

#[test]
fn only_sixteen_bits_of_the_length_are_announced() {
    let mut device = ready(2);
    device.write_image(0, &vec![5u8; 0x1_0203]).unwrap();
    let call = device.flush();
    let reports = written(&mut device, call);
    assert_eq!(reports[0], command(b"BAT\0\0\x02\x03\x01", 1024));
    assert_eq!(reports.len(), 2 + 65);
}

#[test]
fn failed_flush_keeps_the_images() {
    let mut device = ready(1);
    device.write_image(2, &[1]).unwrap();
    let mut call = device.flush();
    device.resume(&mut call, Reply::Written);
    device.resume(&mut call, Reply::Failed);
    assert_eq!(call.request(), Request::Failed);
    device.resume(&mut call, Reply::Written);
    assert_eq!(call.request(), Request::Failed);
    let call = device.flush();
    assert_eq!(
        written(&mut device, call),
        vec![
            command(b"BAT\0\0\x00\x01\x03", 512),
            filled(&[0, 1], 512),
            command(b"STP", 512),
        ]
    );
}

#[test]
fn images_queued_during_a_flush_wait_for_the_next() {
    let mut device = ready(1);
    device.write_image(2, &[1]).unwrap();
    let call = device.flush();
    device.write_image(3, &[9]).unwrap();
    assert_eq!(written(&mut device, call).len(), 3);
    let call = device.flush();
    assert_eq!(
        written(&mut device, call),
        vec![
            command(b"BAT\0\0\x00\x01\x04", 512),
            filled(&[0, 9], 512),
            command(b"STP", 512),
        ]
    );
}

#[test]
fn last_key_cannot_be_flushed() {
    let mut device = ready(1);
    assert!(device.can_flush());
    device.write_image(254, &[1]).unwrap();
    assert!(device.can_flush());
    device.write_image(255, &[1]).unwrap();
    assert!(!device.can_flush());
}

#[test]
fn button_image_is_converted_and_queued() {
    let mut device = device(1);
    let mut call = device.set_button_image(2);
    assert_eq!(call.request(), Request::Write(&command(b"DIS", 512)));
    device.resume(&mut call, Reply::Written);
    assert_eq!(call.request(), Request::Write(&command(b"LIG\0\0\0\0", 512)));
    device.resume(&mut call, Reply::Written);
    assert_eq!(call.request(), Request::Convert);
    device.resume(&mut call, Reply::Converted(vec![6, 7]));
    assert_eq!(call.request(), Request::Finished);
    let call = device.flush();
    assert_eq!(
        written(&mut device, call),
        vec![
            command(b"BAT\0\0\x00\x02\x03", 512),
            filled(&[0, 6, 7], 512),
            command(b"STP", 512),
        ]
    );
}

#[test]
fn button_image_that_cannot_be_converted_is_not_queued() {
    let mut device = ready(1);
    let mut call = device.set_button_image(2);
    assert_eq!(call.request(), Request::Convert);
    device.resume(&mut call, Reply::Failed);
    assert_eq!(call.request(), Request::Failed);
    let call = device.flush();
    assert_eq!(call.request(), Request::Finished);
}

#[test]
fn replies_that_answer_nothing_are_ignored() {
    let mut device = ready(1);
    let mut call = device.sleep();
    device.resume(&mut call, Reply::Converted(vec![1]));
    assert_eq!(call.request(), Request::Write(&command(b"HAN", 512)));
    device.resume(&mut call, Reply::Written);
    device.resume(&mut call, Reply::Failed);
    device.resume(&mut call, Reply::Written);
    assert_eq!(call.request(), Request::Finished);
    let mut call = device.set_button_image(1);
    device.resume(&mut call, Reply::Written);
    assert_eq!(call.request(), Request::Convert);
}
